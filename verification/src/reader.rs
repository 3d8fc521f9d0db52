//! Reading a drawing's tables from its code pairs.

use vstd::prelude::*;

use crate::code_pair::{pairs_view, CodePair, CodePairValue, PairView, ValueView};
use crate::drawing::{empty_drawing, Drawing, DrawingModel};
use crate::enums::default_version;
use crate::error::{DxfError, DxfResult};
use crate::items::{
    view_port_from_pairs, view_port_of, line_type_from_pairs, line_type_of, layer_from_pairs, layer_of, style_from_pairs, style_of, view_from_pairs, view_of, ucs_from_pairs, ucs_of, app_id_from_pairs, app_id_of, block_record_from_pairs, block_record_of,
};
use crate::text::{chars_eq, chars_of};
use crate::writer::{
    endsec_word, endtab_word, eof_word, section_word, table_word, tables_word,
    view_port_type_word, line_type_type_word, layer_type_word, style_type_word, view_type_word, ucs_type_word, app_id_type_word, block_record_type_word,
};

verus! {

/// The kind of table being read.
#[derive(Clone, Copy, Debug, PartialEq, Eq, Structural)]
pub enum TableKind {
    ViewPort,
    LineType,
    Layer,
    Style,
    View,
    Ucs,
    AppId,
    BlockRecord,
    /// A table whose items are skipped.
    Other,
}

/// Where the reading of a drawing's code pairs stands.
#[derive(Clone, Copy, Debug, PartialEq, Eq, Structural)]
pub enum Phase {
    /// Between sections.
    Top,
    /// After `SECTION`, before the section's name.
    SectionName,
    /// Inside a section that is skipped.
    SkipSection,
    /// Inside the tables section, between tables.
    Tables,
    /// After `TABLE`, before the table's name.
    TableName,
    /// Inside a table of the given kind.
    Table(TableKind),
    /// After `EOF`; what follows is ignored.
    Done,
}

/// The state of reading: the phase, the drawing so far, and where the pairs of
/// the table item being read start, if one is.
pub struct ReadState {
    pub phase: Phase,
    pub drawing: DrawingModel,
    pub pending: Option<int>,
}

/// Whether a pair has the given code and text.
pub open spec fn is_text(p: PairView, code: i32, w: Seq<char>) -> bool {
    p.code == code && p.value == ValueView::Str(w)
}

/// The kind of a table, by its name.
pub open spec fn table_kind(name: Seq<char>) -> TableKind {
    if name == view_port_type_word() {
        TableKind::ViewPort
    } else if name == line_type_type_word() {
        TableKind::LineType
    } else if name == layer_type_word() {
        TableKind::Layer
    } else if name == style_type_word() {
        TableKind::Style
    } else if name == view_type_word() {
        TableKind::View
    } else if name == ucs_type_word() {
        TableKind::Ucs
    } else if name == app_id_type_word() {
        TableKind::AppId
    } else if name == block_record_type_word() {
        TableKind::BlockRecord
    } else {
        TableKind::Other
    }
}

/// The type of the items of a table kind.
pub open spec fn item_word(k: TableKind) -> Seq<char> {
    match k {
        TableKind::ViewPort => view_port_type_word(),
        TableKind::LineType => line_type_type_word(),
        TableKind::Layer => layer_type_word(),
        TableKind::Style => style_type_word(),
        TableKind::View => view_type_word(),
        TableKind::Ucs => ucs_type_word(),
        TableKind::AppId => app_id_type_word(),
        TableKind::BlockRecord => block_record_type_word(),
        TableKind::Other => Seq::empty(),
    }
}

/// The drawing with the item whose pairs are `ps[start..i]` added to the table
/// of kind `k`, if an item is pending; an item that cannot be read is an error.
pub open spec fn finish_item(d: DrawingModel, k: TableKind, pending: Option<int>, ps: Seq<PairView>, i: int) -> Result<DrawingModel, DxfError> {
    match pending {
        None => Ok(d),
        Some(s) => {
            let body = ps.subrange(s, i);
            match k {
                TableKind::ViewPort => match view_port_of(body) {
                    Ok(x) => Ok(DrawingModel { view_ports: d.view_ports.push(x), ..d }),
                    Err(e) => Err(e),
                },
                TableKind::LineType => match line_type_of(body) {
                    Ok(x) => Ok(DrawingModel { line_types: d.line_types.push(x), ..d }),
                    Err(e) => Err(e),
                },
                TableKind::Layer => match layer_of(body) {
                    Ok(x) => Ok(DrawingModel { layers: d.layers.push(x), ..d }),
                    Err(e) => Err(e),
                },
                TableKind::Style => match style_of(body) {
                    Ok(x) => Ok(DrawingModel { styles: d.styles.push(x), ..d }),
                    Err(e) => Err(e),
                },
                TableKind::View => match view_of(body) {
                    Ok(x) => Ok(DrawingModel { views: d.views.push(x), ..d }),
                    Err(e) => Err(e),
                },
                TableKind::Ucs => match ucs_of(body) {
                    Ok(x) => Ok(DrawingModel { ucss: d.ucss.push(x), ..d }),
                    Err(e) => Err(e),
                },
                TableKind::AppId => match app_id_of(body) {
                    Ok(x) => Ok(DrawingModel { app_ids: d.app_ids.push(x), ..d }),
                    Err(e) => Err(e),
                },
                TableKind::BlockRecord => match block_record_of(body) {
                    Ok(x) => Ok(DrawingModel { block_records: d.block_records.push(x), ..d }),
                    Err(e) => Err(e),
                },
                TableKind::Other => Ok(d),
            }
        },
    }
}

/// One pair of the reading, at position `i`: sections are read between
/// `SECTION` and `ENDSEC` and the file ends at `EOF`; of the sections only
/// `TABLES` is read, table by table, between `TABLE` and `ENDTAB`; in a table,
/// each item starts with a pair of code 0 that names its type, and ends at the
/// next pair of code 0. Items of an unknown type, and tables of an unknown
/// name, are skipped. A pair where none of these may stand is an error.
pub open spec fn read_step(ps: Seq<PairView>, i: int, st: ReadState) -> Result<ReadState, DxfError> {
    let p = ps[i];
    match st.phase {
        Phase::Top => if is_text(p, 0, section_word()) {
            Ok(ReadState { phase: Phase::SectionName, ..st })
        } else if is_text(p, 0, eof_word()) {
            Ok(ReadState { phase: Phase::Done, ..st })
        } else {
            Err(DxfError::UnexpectedCodePair(p.code))
        },
        Phase::SectionName => match p.value {
            ValueView::Str(s) => if p.code == 2 {
                if s == tables_word() {
                    Ok(ReadState { phase: Phase::Tables, ..st })
                } else {
                    Ok(ReadState { phase: Phase::SkipSection, ..st })
                }
            } else {
                Err(DxfError::UnexpectedCodePair(p.code))
            },
            _ => Err(DxfError::UnexpectedCodePair(p.code)),
        },
        Phase::SkipSection => if is_text(p, 0, endsec_word()) {
            Ok(ReadState { phase: Phase::Top, ..st })
        } else {
            Ok(st)
        },
        Phase::Tables => if is_text(p, 0, table_word()) {
            Ok(ReadState { phase: Phase::TableName, ..st })
        } else if is_text(p, 0, endsec_word()) {
            Ok(ReadState { phase: Phase::Top, ..st })
        } else {
            Err(DxfError::UnexpectedCodePair(p.code))
        },
        Phase::TableName => match p.value {
            ValueView::Str(s) => if p.code == 2 {
                Ok(ReadState { phase: Phase::Table(table_kind(s)), pending: None, ..st })
            } else {
                Err(DxfError::UnexpectedCodePair(p.code))
            },
            _ => Err(DxfError::UnexpectedCodePair(p.code)),
        },
        Phase::Table(k) => if p.code == 0 {
            match finish_item(st.drawing, k, st.pending, ps, i) {
                Err(e) => Err(e),
                Ok(d) => if p.value == ValueView::Str(endtab_word()) {
                    Ok(ReadState { phase: Phase::Tables, drawing: d, pending: None })
                } else if k != TableKind::Other && p.value == ValueView::Str(item_word(k)) {
                    Ok(ReadState { phase: Phase::Table(k), drawing: d, pending: Some(i + 1) })
                } else {
                    Ok(ReadState { phase: Phase::Table(k), drawing: d, pending: None })
                },
            }
        } else {
            Ok(st)
        },
        Phase::Done => Ok(st),
    }
}

/// The reading from position `i` on: step by step, and at the end of the pairs
/// the drawing, unless the end falls inside a section.
pub open spec fn read_run(ps: Seq<PairView>, i: int, st: ReadState) -> Result<DrawingModel, DxfError>
    decreases ps.len() - i,
{
    if i >= ps.len() {
        match st.phase {
            Phase::Top => Ok(st.drawing),
            Phase::Done => Ok(st.drawing),
            _ => Err(DxfError::UnexpectedEndOfInput),
        }
    } else {
        match read_step(ps, i, st) {
            Ok(s2) => read_run(ps, i + 1, s2),
            Err(e) => Err(e),
        }
    }
}

/// The drawing that a list of code pairs describes, read into a drawing with the
/// default header and no items.
pub open spec fn read_pairs(ps: Seq<PairView>) -> Result<DrawingModel, DxfError> {
    read_run(
        ps,
        0,
        ReadState {
            phase: Phase::Top,
            drawing: empty_drawing(default_version(), seq!['0'], Seq::empty(), 0),
            pending: None,
        },
    )
}

/// The spec view of a pending position.
pub open spec fn pending_view(p: Option<usize>) -> Option<int> {
    match p {
        Some(s) => Some(s as int),
        None => None,
    }
}

/// Whether a pair has the given code and text.
fn is_text_pair(p: &CodePair, code: i32, w: &[char]) -> (r: bool)
    ensures
        r == is_text(p@, code, w@),
{
    if p.code != code {
        return false;
    }
    match &p.value {
        CodePairValue::Str(s) => {
            let chars = chars_of(s.as_str());
            chars_eq(chars.as_slice(), w)
        },
        _ => false,
    }
}

/// The kind of a table, by its name.
fn table_kind_of(name: &String) -> (k: TableKind)
    ensures
        k == table_kind(name@),
{
    let chars = chars_of(name.as_str());
    let w: Vec<char> = vec!['V', 'P', 'O', 'R', 'T'];
    proof {
        assert(w@ =~= view_port_type_word());
    }
    if chars_eq(chars.as_slice(), w.as_slice()) {
        return TableKind::ViewPort;
    }
    let w: Vec<char> = vec!['L', 'T', 'Y', 'P', 'E'];
    proof {
        assert(w@ =~= line_type_type_word());
    }
    if chars_eq(chars.as_slice(), w.as_slice()) {
        return TableKind::LineType;
    }
    let w: Vec<char> = vec!['L', 'A', 'Y', 'E', 'R'];
    proof {
        assert(w@ =~= layer_type_word());
    }
    if chars_eq(chars.as_slice(), w.as_slice()) {
        return TableKind::Layer;
    }
    let w: Vec<char> = vec!['S', 'T', 'Y', 'L', 'E'];
    proof {
        assert(w@ =~= style_type_word());
    }
    if chars_eq(chars.as_slice(), w.as_slice()) {
        return TableKind::Style;
    }
    let w: Vec<char> = vec!['V', 'I', 'E', 'W'];
    proof {
        assert(w@ =~= view_type_word());
    }
    if chars_eq(chars.as_slice(), w.as_slice()) {
        return TableKind::View;
    }
    let w: Vec<char> = vec!['U', 'C', 'S'];
    proof {
        assert(w@ =~= ucs_type_word());
    }
    if chars_eq(chars.as_slice(), w.as_slice()) {
        return TableKind::Ucs;
    }
    let w: Vec<char> = vec!['A', 'P', 'P', 'I', 'D'];
    proof {
        assert(w@ =~= app_id_type_word());
    }
    if chars_eq(chars.as_slice(), w.as_slice()) {
        return TableKind::AppId;
    }
    let w: Vec<char> = vec!['B', 'L', 'O', 'C', 'K', '_', 'R', 'E', 'C', 'O', 'R', 'D'];
    proof {
        assert(w@ =~= block_record_type_word());
    }
    if chars_eq(chars.as_slice(), w.as_slice()) {
        return TableKind::BlockRecord;
    }
    TableKind::Other
}

/// The type of the items of a table kind.
fn item_word_of(k: TableKind) -> (w: Vec<char>)
    ensures
        w@ == item_word(k),
{
    let w: Vec<char> = match k {
        TableKind::ViewPort => vec!['V', 'P', 'O', 'R', 'T'],
        TableKind::LineType => vec!['L', 'T', 'Y', 'P', 'E'],
        TableKind::Layer => vec!['L', 'A', 'Y', 'E', 'R'],
        TableKind::Style => vec!['S', 'T', 'Y', 'L', 'E'],
        TableKind::View => vec!['V', 'I', 'E', 'W'],
        TableKind::Ucs => vec!['U', 'C', 'S'],
        TableKind::AppId => vec!['A', 'P', 'P', 'I', 'D'],
        TableKind::BlockRecord => vec!['B', 'L', 'O', 'C', 'K', '_', 'R', 'E', 'C', 'O', 'R', 'D'],
        TableKind::Other => Vec::new(),
    };
    proof {
        assert(w@ =~= item_word(k));
    }
    w
}

/// Adds the pending item, as `finish_item` describes.
fn finish_item_exec(d: &mut Drawing, k: TableKind, pending: Option<usize>, ps: &Vec<CodePair>, i: usize) -> (r: DxfResult<()>)
    requires
        pending matches Some(s) ==> s <= i,
        i <= ps@.len(),
    ensures
        match finish_item(old(d)@, k, pending_view(pending), pairs_view(ps@), i as int) {
            Ok(m) => r is Ok && final(d)@ == m,
            Err(e) => r == Err::<(), DxfError>(e),
        },
{
    match pending {
        None => Ok(()),
        Some(s) => {
            match k {
                TableKind::ViewPort => {
                    let x = view_port_from_pairs(ps, s, i)?;
                    d.push_view_port(x);
                    Ok(())
                },
                TableKind::LineType => {
                    let x = line_type_from_pairs(ps, s, i)?;
                    d.push_line_type(x);
                    Ok(())
                },
                TableKind::Layer => {
                    let x = layer_from_pairs(ps, s, i)?;
                    d.push_layer(x);
                    Ok(())
                },
                TableKind::Style => {
                    let x = style_from_pairs(ps, s, i)?;
                    d.push_style(x);
                    Ok(())
                },
                TableKind::View => {
                    let x = view_from_pairs(ps, s, i)?;
                    d.push_view(x);
                    Ok(())
                },
                TableKind::Ucs => {
                    let x = ucs_from_pairs(ps, s, i)?;
                    d.push_ucs(x);
                    Ok(())
                },
                TableKind::AppId => {
                    let x = app_id_from_pairs(ps, s, i)?;
                    d.push_app_id(x);
                    Ok(())
                },
                TableKind::BlockRecord => {
                    let x = block_record_from_pairs(ps, s, i)?;
                    d.push_block_record(x);
                    Ok(())
                },
                TableKind::Other => Ok(()),
            }
        },
    }
}

/// One step of the reading, as `read_step` describes.
fn read_step_exec(
    ps: &Vec<CodePair>,
    i: usize,
    phase: Phase,
    d: &mut Drawing,
    pending: Option<usize>,
) -> (r: DxfResult<(Phase, Option<usize>)>)
    requires
        i < ps@.len(),
        pending matches Some(s) ==> s <= i,
    ensures
        match read_step(pairs_view(ps@), i as int, ReadState { phase, drawing: old(d)@, pending: pending_view(pending) }) {
            Ok(st) => r matches Ok(q) && q.0 == st.phase && pending_view(q.1) == st.pending && final(d)@ == st.drawing
                && (q.1 matches Some(s) ==> s <= i + 1),
            Err(e) => r == Err::<(Phase, Option<usize>), DxfError>(e),
        },
{
    let n = ps.len();
    let p = &ps[i];
    proof {
        assert(pairs_view(ps@)[i as int] == p@);
        assert(i < n);
    }
    let section: Vec<char> = vec!['S', 'E', 'C', 'T', 'I', 'O', 'N'];
    let eof: Vec<char> = vec!['E', 'O', 'F'];
    let endsec: Vec<char> = vec!['E', 'N', 'D', 'S', 'E', 'C'];
    let tables: Vec<char> = vec!['T', 'A', 'B', 'L', 'E', 'S'];
    let table: Vec<char> = vec!['T', 'A', 'B', 'L', 'E'];
    let endtab: Vec<char> = vec!['E', 'N', 'D', 'T', 'A', 'B'];
    proof {
        assert(section@ =~= section_word());
        assert(eof@ =~= eof_word());
        assert(endsec@ =~= endsec_word());
        assert(tables@ =~= tables_word());
        assert(table@ =~= table_word());
        assert(endtab@ =~= endtab_word());
    }
    match phase {
        Phase::Top => {
            if is_text_pair(p, 0, section.as_slice()) {
                Ok((Phase::SectionName, pending))
            } else if is_text_pair(p, 0, eof.as_slice()) {
                Ok((Phase::Done, pending))
            } else {
                Err(DxfError::UnexpectedCodePair(p.code))
            }
        },
        Phase::SectionName => {
            match &p.value {
                CodePairValue::Str(s) => {
                    if p.code == 2 {
                        let chars = chars_of(s.as_str());
                        if chars_eq(chars.as_slice(), tables.as_slice()) {
                            Ok((Phase::Tables, pending))
                        } else {
                            Ok((Phase::SkipSection, pending))
                        }
                    } else {
                        Err(DxfError::UnexpectedCodePair(p.code))
                    }
                },
                _ => Err(DxfError::UnexpectedCodePair(p.code)),
            }
        },
        Phase::SkipSection => {
            if is_text_pair(p, 0, endsec.as_slice()) {
                Ok((Phase::Top, pending))
            } else {
                Ok((Phase::SkipSection, pending))
            }
        },
        Phase::Tables => {
            if is_text_pair(p, 0, table.as_slice()) {
                Ok((Phase::TableName, pending))
            } else if is_text_pair(p, 0, endsec.as_slice()) {
                Ok((Phase::Top, pending))
            } else {
                Err(DxfError::UnexpectedCodePair(p.code))
            }
        },
        Phase::TableName => {
            match &p.value {
                CodePairValue::Str(s) => {
                    if p.code == 2 {
                        Ok((Phase::Table(table_kind_of(s)), None))
                    } else {
                        Err(DxfError::UnexpectedCodePair(p.code))
                    }
                },
                _ => Err(DxfError::UnexpectedCodePair(p.code)),
            }
        },
        Phase::Table(k) => {
            if p.code == 0 {
                finish_item_exec(d, k, pending, ps, i)?;
                let word = item_word_of(k);
                if is_text_pair(p, 0, endtab.as_slice()) {
                    Ok((Phase::Tables, None))
                } else if k != TableKind::Other && is_text_pair(p, 0, word.as_slice()) {
                    Ok((Phase::Table(k), Some(i + 1)))
                } else {
                    Ok((Phase::Table(k), None))
                }
            } else {
                Ok((Phase::Table(k), pending))
            }
        },
        Phase::Done => Ok((Phase::Done, pending)),
    }
}

impl Drawing {
    /// Reads a drawing from its code pairs, as `read_pairs` describes.
    pub fn from_code_pairs(ps: &Vec<CodePair>) -> (r: DxfResult<Drawing>)
        ensures
            match read_pairs(pairs_view(ps@)) {
                Ok(m) => r matches Ok(d) && d@ == m,
                Err(e) => r matches Err(e2) && e2 == e,
            },
    {
        let mut d = Drawing::empty();
        let mut phase = Phase::Top;
        let mut pending: Option<usize> = None;
        let ghost pv = pairs_view(ps@);
        let mut i: usize = 0;
        while i < ps.len()
            invariant
                i <= ps@.len(),
                pv == pairs_view(ps@),
                pending matches Some(s) ==> s <= i,
                read_run(pv, i as int, ReadState { phase, drawing: d@, pending: pending_view(pending) })
                    == read_pairs(pv),
            decreases ps.len() - i,
        {
            let r = read_step_exec(ps, i, phase, &mut d, pending);
            match r {
                Ok(q) => {
                    phase = q.0;
                    pending = q.1;
                },
                Err(e) => {
                    return Err(e);
                },
            }
            i = i + 1;
        }
        match phase {
            Phase::Top => Ok(d),
            Phase::Done => Ok(d),
            _ => Err(DxfError::UnexpectedEndOfInput),
        }
    }
}

} // verus!
