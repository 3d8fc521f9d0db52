//! Line types: their elements, their patterns, and their code pairs.

use vstd::prelude::*;
use vstd::view::View as _;

use crate::code_pair::{
    pairs_view, push_pair, real_pair, short_pair, str_pair, CodePair, CodePairValue, PairView,
    ValueView,
};
use crate::decimal::{below_zero, lemma_add_not_below, parse_real, real_abs, real_add, real_of_text, real_zero, Real};
use crate::enums::{version_at_least, AcadVersion};
use crate::handle::hex_upper;
use crate::drawing::{handle_floor, has_handle_room, Drawing, DrawingModel};
use crate::error::{DxfError, DxfResult};
use crate::handle::{next_value, Handle};
use crate::tables::{
    default_style, groups_view, opt_text, ExtensionGroup, GroupModel, Style, StyleModel,
};
use crate::text::{
    chars_eq, chars_of, has_prefix, lemma_split_commas_len, remove_char_law, replace_slash_law, lemma_trim_len, remove_char,
    remove_char_exec, replace_slash, replace_slash_exec, split_commas, split_commas_exec,
    starts_with, string_of, tail_from, trim, trim_chars,
};

verus! {

//------------------------------------------------------------------------------
//                                                             LineTypeElement
//------------------------------------------------------------------------------

/// One dash, dot or space of a line type, with the text or shape that may sit
/// on it.
#[derive(Debug)]
pub struct LineTypeElement {
    pub dash_dot_space_length: Real,
    pub complex_line_type_element_type: i16,
    pub shape_number: Option<i16>,
    pub __styles_handle: Option<Handle>,
    pub rotation_angle: Option<Real>,
    pub text_string: Option<String>,
    pub scale_value: Option<Real>,
    pub x_offset: Option<Real>,
    pub y_offset: Option<Real>,
}

/// What a line type element holds.
#[verifier::ext_equal]
pub struct ElementModel {
    pub dash_dot_space_length: Real,
    pub complex_line_type_element_type: i16,
    pub shape_number: Option<i16>,
    pub styles_handle: Option<Handle>,
    pub rotation_angle: Option<Real>,
    pub text_string: Option<Seq<char>>,
    pub scale_value: Option<Real>,
    pub x_offset: Option<Real>,
    pub y_offset: Option<Real>,
}

impl vstd::view::View for LineTypeElement {
    type V = ElementModel;

    open spec fn view(&self) -> ElementModel {
        ElementModel {
            dash_dot_space_length: self.dash_dot_space_length,
            complex_line_type_element_type: self.complex_line_type_element_type,
            shape_number: self.shape_number,
            styles_handle: self.__styles_handle,
            rotation_angle: self.rotation_angle,
            text_string: opt_text(self.text_string),
            scale_value: self.scale_value,
            x_offset: self.x_offset,
            y_offset: self.y_offset,
        }
    }
}

/// A line type element as `LineTypeElement::default` makes it: a zero length and
/// nothing on it.
pub open spec fn default_element() -> ElementModel {
    ElementModel {
        dash_dot_space_length: real_zero(),
        complex_line_type_element_type: 0,
        shape_number: None,
        styles_handle: None,
        rotation_angle: None,
        text_string: None,
        scale_value: None,
        x_offset: None,
        y_offset: None,
    }
}

impl Default for LineTypeElement {
    fn default() -> (e: Self)
        ensures
            e@ == default_element(),
    {
        Self {
            dash_dot_space_length: Real::zero(),
            complex_line_type_element_type: 0,
            shape_number: None,
            __styles_handle: None,
            rotation_angle: None,
            text_string: None,
            scale_value: None,
            x_offset: None,
            y_offset: None,
        }
    }
}

/// A copy of an optional text.
fn copy_opt_text(s: &Option<String>) -> (r: Option<String>)
    ensures
        opt_text(r) == opt_text(*s),
{
    match s {
        Some(t) => Some(t.clone()),
        None => None,
    }
}

impl Clone for LineTypeElement {
    fn clone(&self) -> (e: Self)
        ensures
            e@ == self@,
    {
        LineTypeElement {
            dash_dot_space_length: self.dash_dot_space_length,
            complex_line_type_element_type: self.complex_line_type_element_type,
            shape_number: self.shape_number,
            __styles_handle: self.__styles_handle,
            rotation_angle: self.rotation_angle,
            text_string: copy_opt_text(&self.text_string),
            scale_value: self.scale_value,
            x_offset: self.x_offset,
            y_offset: self.y_offset,
        }
    }
}

//------------------------------------------------------------------------------
//                                                                    LineType
//------------------------------------------------------------------------------

/// A line type of a drawing: a pattern of dashes, dots and spaces.
#[derive(Clone, Debug)]
pub struct LineType {
    pub handle: Handle,
    pub name: String,
    pub description: String,
    pub alignment_code: i32,
    pub element_count: i32,
    pub total_pattern_length: Real,
    pub line_elements: Vec<LineTypeElement>,
    pub extension_data_groups: Vec<ExtensionGroup>,
}

/// The views of a list of line type elements.
pub open spec fn elements_view(s: Seq<LineTypeElement>) -> Seq<ElementModel> {
    s.map_values(|e: LineTypeElement| e@)
}

/// What a line type holds.
#[verifier::ext_equal]
pub struct LineTypeModel {
    pub handle: u64,
    pub name: Seq<char>,
    pub description: Seq<char>,
    pub alignment_code: i32,
    pub element_count: i32,
    pub total_pattern_length: Real,
    pub line_elements: Seq<ElementModel>,
    pub groups: Seq<GroupModel>,
}

impl vstd::view::View for LineType {
    type V = LineTypeModel;

    open spec fn view(&self) -> LineTypeModel {
        LineTypeModel {
            handle: self.handle.0,
            name: self.name@,
            description: self.description@,
            alignment_code: self.alignment_code,
            element_count: self.element_count,
            total_pattern_length: self.total_pattern_length,
            line_elements: elements_view(self.line_elements@),
            groups: groups_view(self.extension_data_groups@),
        }
    }
}

/// A line type as `LineType::default` makes it: no elements, and the
/// alignment code 65 (`'A'`).
pub open spec fn default_line_type() -> LineTypeModel {
    LineTypeModel {
        handle: 0,
        name: Seq::empty(),
        description: Seq::empty(),
        alignment_code: 65,
        element_count: 0,
        total_pattern_length: real_zero(),
        line_elements: Seq::empty(),
        groups: Seq::empty(),
    }
}

impl Default for LineType {
    fn default() -> (l: LineType)
        ensures
            l@ == default_line_type(),
    {
        let l = LineType {
            handle: Handle(0),
            name: String::new(),
            description: String::new(),
            alignment_code: 65,
            element_count: 0,
            total_pattern_length: Real::zero(),
            line_elements: Vec::new(),
            extension_data_groups: Vec::new(),
        };
        proof {
            assert(elements_view(l.line_elements@) =~= Seq::<ElementModel>::empty());
            assert(groups_view(l.extension_data_groups@) =~= Seq::<GroupModel>::empty());
        }
        l
    }
}

//------------------------------------------------------------------------------
//                                                       splitting a pattern
//------------------------------------------------------------------------------

/// Where a scan of a pattern text stands: the elements found so far, the text
/// of the element being read, and whether the scan is inside brackets.
pub struct SplitState {
    pub done: Seq<Seq<char>>,
    pub current: Seq<char>,
    pub in_brackets: bool,
}

/// One character of the scan: `[` and `]` open and close brackets, and a comma
/// outside brackets ends an element, which is kept trimmed.
pub open spec fn split_step(st: SplitState, c: char) -> SplitState {
    if c == '[' {
        SplitState { current: st.current.push(c), in_brackets: true, ..st }
    } else if c == ']' {
        SplitState { current: st.current.push(c), in_brackets: false, ..st }
    } else if c == ',' && !st.in_brackets {
        SplitState { done: st.done.push(trim(st.current)), current: Seq::empty(), ..st }
    } else {
        SplitState { current: st.current.push(c), ..st }
    }
}

/// The scan of a whole text.
pub open spec fn split_scan(s: Seq<char>) -> SplitState
    decreases s.len(),
{
    if s.len() == 0 {
        SplitState { done: Seq::empty(), current: Seq::empty(), in_brackets: false }
    } else {
        split_step(split_scan(s.drop_last()), s.last())
    }
}

/// The elements of a pattern text: the text split at the commas that stand
/// outside brackets, each piece trimmed; a last piece is kept only where it is
/// not empty before trimming.
pub open spec fn pattern_elements(s: Seq<char>) -> Seq<Seq<char>> {
    let st = split_scan(s);
    if st.current.len() > 0 {
        st.done.push(trim(st.current))
    } else {
        st.done
    }
}

/// The views of a list of strings.
pub open spec fn strings_view(s: Seq<String>) -> Seq<Seq<char>> {
    s.map_values(|e: String| e@)
}

impl LineType {
    /// Splits a pattern text into its elements, as `pattern_elements` describes.
    pub(crate) fn parse_elements(&self, input: &[char]) -> (r: Vec<String>)
        ensures
            strings_view(r@) == pattern_elements(input@),
    {
        let mut elements: Vec<String> = Vec::new();
        let mut current: Vec<char> = Vec::new();
        let mut in_brackets = false;
        let mut i: usize = 0;
        proof {
            assert(strings_view(elements@) =~= Seq::<Seq<char>>::empty());
            assert(input@.subrange(0, 0) =~= Seq::<char>::empty());
            assert(current@ =~= Seq::<char>::empty());
        }
        while i < input.len()
            invariant
                i <= input@.len(),
                split_scan(input@.subrange(0, i as int)) == (SplitState {
                    done: strings_view(elements@),
                    current: current@,
                    in_brackets,
                }),
            decreases input.len() - i,
        {
            let c = input[i];
            proof {
                assert(input@.subrange(0, i + 1).drop_last() =~= input@.subrange(0, i as int));
            }
            let ghost old_elements = elements@;
            if c == '[' {
                in_brackets = true;
                current.push(c);
            } else if c == ']' {
                in_brackets = false;
                current.push(c);
            } else if c == ',' {
                if in_brackets {
                    current.push(c);
                } else {
                    let t = trim_chars(current.as_slice());
                    elements.push(string_of(t.as_slice()));
                    current = Vec::new();
                    proof {
                        assert(strings_view(elements@) =~= strings_view(old_elements).push(trim(
                            split_scan(input@.subrange(0, i as int)).current,
                        )));
                    }
                }
            } else {
                current.push(c);
            }
            i = i + 1;
            proof {
                assert(current@ =~= split_scan(input@.subrange(0, i as int)).current);
            }
        }
        proof {
            assert(input@.subrange(0, input@.len() as int) =~= input@);
        }
        // Push the last element if any
        if current.len() > 0 {
            let ghost old_elements = elements@;
            let t = trim_chars(current.as_slice());
            elements.push(string_of(t.as_slice()));
            proof {
                assert(strings_view(elements@) =~= strings_view(old_elements).push(trim(current@)));
            }
        }
        elements
    }
}


//------------------------------------------------------------------------------
//                                                                 text styles
//------------------------------------------------------------------------------

/// The position of the first style named `name`, or the number of styles where
/// none is.
pub open spec fn first_named(styles: Seq<StyleModel>, name: Seq<char>) -> int
    decreases styles.len(),
{
    if styles.len() == 0 {
        0
    } else if styles[0].name == name {
        0
    } else {
        1 + first_named(styles.drop_first(), name)
    }
}

proof fn lemma_first_named_at(styles: Seq<StyleModel>, name: Seq<char>, k: int)
    requires
        0 <= k <= styles.len(),
        forall|j: int| 0 <= j < k ==> styles[j].name != name,
        k < styles.len() ==> styles[k].name == name,
    ensures
        first_named(styles, name) == k,
    decreases styles.len(),
{
    if styles.len() > 0 && styles[0].name != name {
        assert forall|j: int| 0 <= j < k - 1 implies styles.drop_first()[j].name != name by {
            assert(styles.drop_first()[j] == styles[j + 1]);
        }
        lemma_first_named_at(styles.drop_first(), name, k - 1);
    }
}

/// The drawing after looking up or adding the text style `name`, and the handle
/// of that style: the first style with that name where there is one, else a
/// new default style with that name and the next handle.
pub open spec fn with_text_style(d: DrawingModel, name: Seq<char>) -> (DrawingModel, u64) {
    let k = first_named(d.styles, name);
    if k < d.styles.len() {
        (d, d.styles[k].handle)
    } else {
        let h = next_value(d.last_handle);
        (
            DrawingModel {
                styles: d.styles.push(StyleModel { handle: h, name, ..default_style() }),
                last_handle: h,
                ..d
            },
            h,
        )
    }
}

/// The first style named `name` is named so, and none before it is.
proof fn lemma_first_named_props(styles: Seq<StyleModel>, name: Seq<char>)
    ensures
        0 <= first_named(styles, name) <= styles.len(),
        forall|j: int| 0 <= j < first_named(styles, name) ==> styles[j].name != name,
        first_named(styles, name) < styles.len() ==> styles[first_named(styles, name)].name == name,
    decreases styles.len(),
{
    if styles.len() > 0 && styles[0].name != name {
        lemma_first_named_props(styles.drop_first(), name);
        assert forall|j: int| 0 <= j < first_named(styles, name) implies styles[j].name != name by {
            if j > 0 {
                assert(styles[j] == styles.drop_first()[j - 1]);
            }
        }
    }
}

/// Looking up a text style a second time finds the one that the first lookup
/// found or added: the drawing stays as it is and the handle is the same, so
/// equal texts in patterns share one style; and a lookup adds at most one
/// style.
pub proof fn text_style_lookup_law(d: DrawingModel, name: Seq<char>)
    ensures
        with_text_style(with_text_style(d, name).0, name) == (with_text_style(d, name).0, with_text_style(d, name).1),
        with_text_style(d, name).0.styles.len() <= d.styles.len() + 1,
        with_text_style(d, name).0.styles.take(d.styles.len() as int) == d.styles,
{
    lemma_first_named_props(d.styles, name);
    let d1 = with_text_style(d, name).0;
    if first_named(d.styles, name) < d.styles.len() {
        assert(d1.styles.take(d.styles.len() as int) =~= d.styles);
    } else {
        let k = d.styles.len() as int;
        assert forall|j: int| 0 <= j < k implies d1.styles[j].name != name by {
            assert(d1.styles[j] == d.styles[j]);
        }
        lemma_first_named_at(d1.styles, name, k);
        assert(d1.styles.take(k) =~= d.styles);
    }
}

impl LineType {
    /// Finds the text style named `text_style` in the drawing, or adds one, and
    /// gives its handle.
    pub fn add_text_style(&mut self, drawing: &mut Drawing, text_style: &str) -> (r: Result<
        Handle,
        DxfError,
    >)
        requires
            first_named(old(drawing)@.styles, text_style@) == old(drawing)@.styles.len()
                ==> has_handle_room(old(drawing)@, 1),
        ensures
            final(self)@ == old(self)@,
            r == Ok::<Handle, DxfError>(Handle(with_text_style(old(drawing)@, text_style@).1)),
            final(drawing)@ == with_text_style(old(drawing)@, text_style@).0,
    {
        let styles = drawing.styles();
        let wanted = chars_of(text_style);
        let mut i: usize = 0;
        while i < styles.len()
            invariant
                i <= styles@.len(),
                wanted@ == text_style@,
                styles@.map_values(|s: Style| s@) == drawing@.styles,
                forall|j: int| 0 <= j < i ==> drawing@.styles[j].name != text_style@,
            decreases styles.len() - i,
        {
            proof {
                assert(styles@.map_values(|s: Style| s@)[i as int] == styles@[i as int]@);
            }
            if chars_eq(chars_of(styles[i].name.as_str()).as_slice(), wanted.as_slice()) {
                proof {
                    lemma_first_named_at(drawing@.styles, text_style@, i as int);
                }
                return Ok(styles[i].handle);
            }
            i = i + 1;
        }
        proof {
            lemma_first_named_at(drawing@.styles, text_style@, i as int);
        }
        let mut style = Style::default();
        style.name = text_style.to_string();
        let h = drawing.add_style(style);
        Ok(h)
    }
}

//------------------------------------------------------------------------------
//                                                          line type patterns
//------------------------------------------------------------------------------

/// Where the reading of a line type pattern stands: the elements of the line
/// type, its element count, the element being built, the drawing, and the
/// error that stopped the reading, if one did.
pub struct PatternState {
    pub elements: Seq<ElementModel>,
    pub count: int,
    pub current: ElementModel,
    pub drawing: DrawingModel,
    pub error: Option<DxfError>,
}

/// The text `STANDARD`.
pub open spec fn standard_word() -> Seq<char> {
    seq!['S', 'T', 'A', 'N', 'D', 'A', 'R', 'D']
}

/// The real that a text denotes, as a `Real`.
pub open spec fn real_value(s: Seq<char>) -> Option<Real> {
    real_of_text(s)
}

/// Sets the scale (`S=`), rotation (`R=`), x offset (`X=`) or y offset (`Y=`)
/// of the current element from one setting of a bracket group; other settings
/// change nothing.
pub open spec fn apply_setting(st: PatternState, q: Seq<char>) -> PatternState {
    if q == standard_word() {
        st
    } else if has_prefix(q, seq!['S', '=']) {
        match real_value(q.skip(2)) {
            Some(v) => PatternState {
                current: ElementModel { scale_value: Some(v), ..st.current },
                ..st
            },
            None => PatternState { error: Some(DxfError::ParseFloatError), ..st },
        }
    } else if has_prefix(q, seq!['R', '=']) {
        match real_value(q.skip(2)) {
            Some(v) => PatternState {
                current: ElementModel { rotation_angle: Some(v), ..st.current },
                ..st
            },
            None => PatternState { error: Some(DxfError::ParseFloatError), ..st },
        }
    } else if has_prefix(q, seq!['X', '=']) {
        match real_value(q.skip(2)) {
            Some(v) => PatternState {
                current: ElementModel { x_offset: Some(v), ..st.current },
                ..st
            },
            None => PatternState { error: Some(DxfError::ParseFloatError), ..st },
        }
    } else if has_prefix(q, seq!['Y', '=']) {
        match real_value(q.skip(2)) {
            Some(v) => PatternState {
                current: ElementModel { y_offset: Some(v), ..st.current },
                ..st
            },
            None => PatternState { error: Some(DxfError::ParseFloatError), ..st },
        }
    } else {
        st
    }
}

/// One comma-separated piece of a bracket group, at position `j`: the first
/// piece must start with `["` and names the text (without `[` and `"`); every
/// piece marks the current element as a text element, looks up or adds the
/// text style named by the text (each `/` written `forwardslash`), and then,
/// with `[` and `]` removed, may give a setting.
pub open spec fn piece_step(st: PatternState, piece: Seq<char>, j: int) -> PatternState {
    if st.error is Some {
        st
    } else if j == 0 && !has_prefix(piece, seq!['[', '"']) {
        PatternState { error: Some(DxfError::MalformedString), ..st }
    } else {
        let cur1 = if j == 0 {
            ElementModel {
                text_string: Some(remove_char(remove_char(piece, '['), '"')),
                ..st.current
            }
        } else {
            st.current
        };
        let style = with_text_style(st.drawing, replace_slash(cur1.text_string.unwrap()));
        let cur2 = ElementModel {
            complex_line_type_element_type: 2,
            shape_number: Some(0),
            styles_handle: Some(Handle(style.1)),
            ..cur1
        };
        apply_setting(
            PatternState { current: cur2, drawing: style.0, ..st },
            remove_char(remove_char(piece, '['), ']'),
        )
    }
}

/// The state after the first `k` pieces of a bracket group.
pub open spec fn pieces_run(st: PatternState, pieces: Seq<Seq<char>>, k: int) -> PatternState
    decreases k,
{
    if k <= 0 {
        st
    } else {
        piece_step(pieces_run(st, pieces, k - 1), pieces[k - 1], k - 1)
    }
}

/// The state with the current element appended to the line type.
pub open spec fn push_current(st: PatternState) -> PatternState {
    PatternState { elements: st.elements.push(st.current), count: st.count + 1, ..st }
}

/// One element of a pattern, at position `i`: a bracket group fills in the
/// current element; a number first appends the current element (unless it is
/// the first element) and starts a new one with that length. After the last
/// element, the current element is appended.
pub open spec fn element_step(st: PatternState, e: Seq<char>, i: int, is_last: bool) -> PatternState {
    if st.error is Some {
        st
    } else if has_prefix(e, seq!['[']) {
        let pieces = split_commas(e);
        let st2 = pieces_run(st, pieces, pieces.len() as int);
        if st2.error is None && is_last {
            push_current(st2)
        } else {
            st2
        }
    } else {
        let st1 = if i > 0 {
            PatternState { current: default_element(), ..push_current(st) }
        } else {
            st
        };
        match real_value(e) {
            None => PatternState { error: Some(DxfError::ParseFloatError), ..st1 },
            Some(v) => {
                let st2 = PatternState {
                    current: ElementModel { dash_dot_space_length: v, ..st1.current },
                    ..st1
                };
                if is_last {
                    push_current(st2)
                } else {
                    st2
                }
            },
        }
    }
}

/// The state after the first `k` elements of a pattern.
pub open spec fn elements_run(st: PatternState, es: Seq<Seq<char>>, k: int) -> PatternState
    decreases k,
{
    if k <= 0 {
        st
    } else {
        element_step(elements_run(st, es, k - 1), es[k - 1], k - 1, k - 1 == es.len() - 1)
    }
}

/// The total pattern length of some elements: the sum of their absolute
/// lengths, added one after another from zero as `real_add` describes.
pub open spec fn total_length(s: Seq<ElementModel>) -> Real
    decreases s.len(),
{
    if s.len() == 0 {
        real_zero()
    } else {
        real_add(total_length(s.drop_last()), real_abs(s.last().dash_dot_space_length))
    }
}

/// Whether a pattern text has the `A,` that must follow a leading `A`.
pub open spec fn pattern_well_started(pattern: Seq<char>) -> bool {
    pattern.len() > 0 && pattern[0] == 'A' ==> has_prefix(pattern, seq!['A', ','])
}

/// The state of reading a pattern text into a line type of a drawing, after all
/// its elements.
pub open spec fn pattern_final(lt: LineTypeModel, d: DrawingModel, pattern: Seq<char>) -> PatternState {
    let es = pattern_elements(pattern.skip(2));
    let init = PatternState {
        elements: lt.line_elements,
        count: lt.element_count as int,
        current: default_element(),
        drawing: d,
        error: None,
    };
    elements_run(init, es, es.len() as int)
}

/// The line type after reading a pattern text: its elements and count from the
/// reading, and, where the reading succeeded, the total length of all its
/// elements.
pub open spec fn pattern_line_type(lt: LineTypeModel, st: PatternState) -> LineTypeModel {
    LineTypeModel {
        line_elements: st.elements,
        element_count: st.count as i32,
        total_pattern_length: if st.error is None {
            total_length(st.elements)
        } else {
            lt.total_pattern_length
        },
        ..lt
    }
}


/// Reading pieces of a bracket group adds no element and counts none.
proof fn lemma_pieces_run_keeps_count(st: PatternState, pieces: Seq<Seq<char>>, k: int)
    ensures
        pieces_run(st, pieces, k).elements == st.elements,
        pieces_run(st, pieces, k).count == st.count,
    decreases k,
{
    if k > 0 {
        lemma_pieces_run_keeps_count(st, pieces, k - 1);
    }
}

/// Reading elements of a pattern counts each element it appends, and appends
/// no more elements than the texts it has read.
proof fn lemma_elements_run_counts(st: PatternState, es: Seq<Seq<char>>, k: int)
    requires
        0 <= k <= es.len(),
    ensures
        elements_run(st, es, k).count - elements_run(st, es, k).elements.len() == st.count
            - st.elements.len(),
        st.elements.len() <= elements_run(st, es, k).elements.len(),
        elements_run(st, es, k).elements.len() <= st.elements.len() + if k == 0 {
            0int
        } else if k == es.len() {
            k
        } else {
            k - 1
        },
        elements_run(st, es, k).elements.take(st.elements.len() as int) == st.elements,
    decreases k,
{
    if k > 0 {
        lemma_elements_run_counts(st, es, k - 1);
        let prev = elements_run(st, es, k - 1);
        let e = es[k - 1];
        if prev.error is None && has_prefix(e, seq!['[']) {
            let pieces = split_commas(e);
            lemma_pieces_run_keeps_count(prev, pieces, pieces.len() as int);
        }
        let next = elements_run(st, es, k);
        assert(next.elements.take(st.elements.len() as int) =~= st.elements) by {
            assert forall|i: int| 0 <= i < st.elements.len() implies next.elements[i] == st.elements[i] by {
                assert(prev.elements.take(st.elements.len() as int)[i] == st.elements[i]);
            }
        }
    } else {
        assert(st.elements.take(st.elements.len() as int) =~= st.elements);
    }
}

/// Adding a pattern (`A,` and its elements) to a line type counts every element
/// it appends and keeps the elements the line type had, so a line type whose
/// element count matches its elements before still does after; and where the
/// reading succeeds, the total pattern length is the sum of the absolute
/// lengths of all elements.
pub proof fn pattern_count_law(lt: LineTypeModel, d: DrawingModel, pattern: Seq<char>)
    requires
        has_prefix(pattern, seq!['A', ',']),
        lt.element_count + pattern_elements(pattern.skip(2)).len() <= i32::MAX,
    ensures
        ({
            let st = pattern_final(lt, d, pattern);
            let after = pattern_line_type(lt, st);
            &&& after.element_count - after.line_elements.len() == lt.element_count - lt.line_elements.len()
            &&& after.line_elements.take(lt.line_elements.len() as int) == lt.line_elements
            &&& st.error is None ==> after.total_pattern_length == total_length(after.line_elements)
        }),
{
    let es = pattern_elements(pattern.skip(2));
    let init = PatternState {
        elements: lt.line_elements,
        count: lt.element_count as int,
        current: default_element(),
        drawing: d,
        error: None,
    };
    lemma_pattern_elements_size(pattern.skip(2));
    lemma_elements_run_counts(init, es, es.len() as int);
}

/// The number of bracket-group pieces among the elements of a pattern: each
/// may look up or add one text style.
pub open spec fn bracket_pieces(es: Seq<Seq<char>>) -> int
    decreases es.len(),
{
    if es.len() == 0 {
        0
    } else {
        bracket_pieces(es.drop_last()) + if has_prefix(es.last(), seq!['[']) {
            split_commas(es.last()).len() as int
        } else {
            0
        }
    }
}

/// The number of handles that reading a pattern text may hand out at most:
/// one for each piece of its bracket groups.
pub open spec fn pattern_handle_need(pattern: Seq<char>) -> int {
    bracket_pieces(pattern_elements(pattern.skip(2)))
}

proof fn lemma_bracket_pieces_take(es: Seq<Seq<char>>, i: int)
    requires
        0 <= i < es.len(),
    ensures
        bracket_pieces(es.take(i + 1)) == bracket_pieces(es.take(i)) + if has_prefix(es[i], seq!['[']) {
            split_commas(es[i]).len() as int
        } else {
            0
        },
        0 <= bracket_pieces(es.take(i)) <= bracket_pieces(es.take(i + 1)) <= bracket_pieces(es),
{
    assert(es.take(i + 1).drop_last() =~= es.take(i));
    lemma_bracket_pieces_prefix(es, i + 1);
    lemma_bracket_pieces_prefix(es, i);
}

proof fn lemma_bracket_pieces_prefix(es: Seq<Seq<char>>, k: int)
    requires
        0 <= k <= es.len(),
    ensures
        0 <= bracket_pieces(es.take(k)) <= bracket_pieces(es),
    decreases es.len(),
{
    if k == es.len() {
        assert(es.take(k) =~= es);
        lemma_bracket_pieces_nonneg(es);
    } else {
        lemma_bracket_pieces_prefix(es.drop_last(), k);
        assert(es.drop_last().take(k) =~= es.take(k));
    }
}

proof fn lemma_bracket_pieces_nonneg(es: Seq<Seq<char>>)
    ensures
        bracket_pieces(es) >= 0,
    decreases es.len(),
{
    if es.len() > 0 {
        lemma_bracket_pieces_nonneg(es.drop_last());
    }
}

/// The total length of some texts.
pub open spec fn total_len(es: Seq<Seq<char>>) -> int
    decreases es.len(),
{
    if es.len() == 0 {
        0
    } else {
        total_len(es.drop_last()) + es.last().len()
    }
}

proof fn lemma_split_scan_size(s: Seq<char>)
    ensures
        split_scan(s).done.len() + total_len(split_scan(s).done) + split_scan(s).current.len()
            <= s.len(),
    decreases s.len(),
{
    if s.len() > 0 {
        lemma_split_scan_size(s.drop_last());
        let st0 = split_scan(s.drop_last());
        if s.last() == ',' && !st0.in_brackets {
            lemma_trim_len(st0.current);
            assert(st0.done.push(trim(st0.current)).drop_last() =~= st0.done);
        }
    }
}

/// A pattern text has no more elements than characters.
proof fn lemma_pattern_elements_size(s: Seq<char>)
    ensures
        pattern_elements(s).len() <= s.len(),
{
    lemma_split_scan_size(s);
    let st = split_scan(s);
    lemma_total_len_nonneg(st.done);
    if st.current.len() > 0 {
        lemma_trim_len(st.current);
        assert(st.done.push(trim(st.current)).drop_last() =~= st.done);
    }
}

proof fn lemma_total_len_nonneg(es: Seq<Seq<char>>)
    ensures
        total_len(es) >= 0,
    decreases es.len(),
{
    if es.len() > 0 {
        lemma_total_len_nonneg(es.drop_last());
    }
}

proof fn lemma_elements_error_persists(st: PatternState, es: Seq<Seq<char>>, k: int, n: int)
    requires
        0 <= k <= n,
        elements_run(st, es, k).error is Some,
    ensures
        elements_run(st, es, n) == elements_run(st, es, k),
    decreases n - k,
{
    if k < n {
        lemma_elements_error_persists(st, es, k, n - 1);
    }
}

proof fn lemma_pieces_error_persists(st: PatternState, ps: Seq<Seq<char>>, k: int, n: int)
    requires
        0 <= k <= n,
        pieces_run(st, ps, k).error is Some,
    ensures
        pieces_run(st, ps, n) == pieces_run(st, ps, k),
    decreases n - k,
{
    if k < n {
        lemma_pieces_error_persists(st, ps, k, n - 1);
    }
}

/// The elements of a line type, as its model has them.
pub open spec fn elements_of(lt: &LineType) -> Seq<ElementModel> {
    lt@.line_elements
}

proof fn lemma_bracket_stop(init: PatternState, es: Seq<Seq<char>>, i: int, ps: Seq<Seq<char>>, k: int)
    requires
        0 <= i < es.len(),
        ps == split_commas(es[i]),
        has_prefix(es[i], seq!['[']),
        0 < k <= ps.len(),
        elements_run(init, es, i).error is None,
        pieces_run(elements_run(init, es, i), ps, k).error is Some,
    ensures
        elements_run(init, es, es.len() as int) == pieces_run(elements_run(init, es, i), ps, k),
{
    let st_i = elements_run(init, es, i);
    lemma_pieces_error_persists(st_i, ps, k, ps.len() as int);
    assert(elements_run(init, es, i + 1) == element_step(st_i, es[i], i, i == es.len() - 1));
    lemma_elements_error_persists(init, es, i + 1, es.len() as int);
}

/// The total length of all elements, summing as `total_length` does.
fn total_pattern_length_of(elements: &Vec<LineTypeElement>) -> (r: Real)
    ensures
        r == total_length(elements_view(elements@)),
{
    let mut acc = Real::zero();
    let mut i: usize = 0;
    while i < elements.len()
        invariant
            i <= elements@.len(),
            acc == total_length(elements_view(elements@).take(i as int)),
        decreases elements.len() - i,
    {
        proof {
            assert(elements_view(elements@).take(i + 1).drop_last() =~= elements_view(
                elements@,
            ).take(i as int));
            lemma_total_length_not_below(elements_view(elements@).take(i as int));
        }
        acc = acc.add_magnitudes(elements[i].dash_dot_space_length.abs());
        i = i + 1;
    }
    proof {
        assert(elements_view(elements@).take(elements@.len() as int) =~= elements_view(
            elements@,
        ));
    }
    acc
}

proof fn lemma_total_length_not_below(s: Seq<ElementModel>)
    ensures
        !below_zero(total_length(s)),
    decreases s.len(),
{
    if s.len() > 0 {
        lemma_total_length_not_below(s.drop_last());
        lemma_add_not_below(total_length(s.drop_last()), real_abs(s.last().dash_dot_space_length));
    }
}

/// The characters of a text, as a vector.
fn vec_of(s: &str) -> (v: Vec<char>)
    ensures
        v@ == s@,
{
    chars_of(s)
}

impl LineType {
    /// Appends a copy of an element and counts it.
    fn push_element(&mut self, e: &LineTypeElement)
        requires
            old(self).element_count < i32::MAX,
        ensures
            final(self)@ == (LineTypeModel {
                line_elements: old(self)@.line_elements.push(e@),
                element_count: (old(self)@.element_count + 1) as i32,
                ..old(self)@
            }),
            final(self).element_count == old(self).element_count + 1,
            elements_view(final(self).line_elements@) == elements_view(old(self).line_elements@).push(e@),
    {
        self.element_count += 1;
        self.line_elements.push(e.clone());
        proof {
            assert(elements_view(self.line_elements@) =~= elements_view(old(self).line_elements@).push(e@));
        }
    }

    /// Reads one comma-separated piece of a bracket group, at position `j`, into
    /// the element being built, as `piece_step` describes.
    fn read_piece(
        &mut self,
        drawing: &mut Drawing,
        line_type_element: &mut LineTypeElement,
        piece: &[char],
        j: usize,
    ) -> (r: DxfResult<()>)
        requires
            j > 0 ==> old(line_type_element).text_string is Some,
            has_handle_room(old(drawing)@, 1),
        ensures
            ({
                let st0 = PatternState {
                    elements: old(self)@.line_elements,
                    count: old(self)@.element_count as int,
                    current: old(line_type_element)@,
                    drawing: old(drawing)@,
                    error: None,
                };
                let st1 = piece_step(st0, piece@, j as int);
                &&& final(self)@ == old(self)@
                &&& final(line_type_element)@ == st1.current
                &&& final(drawing)@ == st1.drawing
                &&& r is Ok <==> st1.error is None
                &&& r matches Err(e) ==> st1.error == Some(e)
                &&& r is Ok ==> final(line_type_element).text_string is Some
                &&& handle_floor(final(drawing)@.last_handle) <= handle_floor(old(drawing)@.last_handle) + 1
            }),
    {
        let quote_open: Vec<char> = vec!['[', '"'];
        let standard: Vec<char> = vec!['S', 'T', 'A', 'N', 'D', 'A', 'R', 'D'];
        let scale_key: Vec<char> = vec!['S', '='];
        let rotation_key: Vec<char> = vec!['R', '='];
        let x_key: Vec<char> = vec!['X', '='];
        let y_key: Vec<char> = vec!['Y', '='];
        if j == 0 && !starts_with(piece, quote_open.as_slice()) {
            return Err(DxfError::MalformedString);
        } else if j == 0 {
            let t1 = remove_char_exec(piece, '[');
            let t2 = remove_char_exec(t1.as_slice(), '"');
            line_type_element.text_string = Some(string_of(t2.as_slice()));
        }
        line_type_element.complex_line_type_element_type = 2;
        line_type_element.shape_number = Some(0);
        let text = vec_of(line_type_element.text_string.as_ref().unwrap().as_str());
        let name = replace_slash_exec(text.as_slice());
        let name_string = string_of(name.as_slice());
        let h = match self.add_text_style(drawing, name_string.as_str()) {
            Ok(h) => h,
            Err(e) => {
                return Err(e);
            },
        };
        line_type_element.__styles_handle = Some(h);
        let q1 = remove_char_exec(piece, '[');
        let q = remove_char_exec(q1.as_slice(), ']');
        if chars_eq(q.as_slice(), standard.as_slice()) {
        } else if starts_with(q.as_slice(), scale_key.as_slice()) {
            match parse_real(tail_from(q.as_slice(), 2).as_slice()) {
                Some(v) => {
                    line_type_element.scale_value = Some(v);
                },
                None => {
                    return Err(DxfError::ParseFloatError);
                },
            }
        } else if starts_with(q.as_slice(), rotation_key.as_slice()) {
            match parse_real(tail_from(q.as_slice(), 2).as_slice()) {
                Some(v) => {
                    line_type_element.rotation_angle = Some(v);
                },
                None => {
                    return Err(DxfError::ParseFloatError);
                },
            }
        } else if starts_with(q.as_slice(), x_key.as_slice()) {
            match parse_real(tail_from(q.as_slice(), 2).as_slice()) {
                Some(v) => {
                    line_type_element.x_offset = Some(v);
                },
                None => {
                    return Err(DxfError::ParseFloatError);
                },
            }
        } else if starts_with(q.as_slice(), y_key.as_slice()) {
            match parse_real(tail_from(q.as_slice(), 2).as_slice()) {
                Some(v) => {
                    line_type_element.y_offset = Some(v);
                },
                None => {
                    return Err(DxfError::ParseFloatError);
                },
            }
        }
        Ok(())
    }

    /// Reads a line type pattern such as `A,0.5,-0.25,["T",STANDARD,S=1,X=0],0.5`
    /// into this line type: each number becomes an element of that length, and a
    /// bracket group puts a text, in a text style of the drawing that it looks up
    /// or adds, on the element before it. Afterwards the total pattern length is
    /// the sum of the absolute lengths of all elements. A pattern that does not
    /// start with `A` is refused; a reading that fails stops where it failed.
    pub fn add_line_type_pattern(&mut self, drawing: &mut Drawing, pattern: &str) -> (r: DxfResult<
        (),
    >)
        requires
            pattern_well_started(pattern@),
            pattern@.len() > 0 && pattern@[0] == 'A' ==> old(self).element_count + pattern_elements(
                pattern@.skip(2),
            ).len() <= i32::MAX,
            pattern@.len() > 0 && pattern@[0] == 'A' && pattern_handle_need(pattern@) > 0
                ==> has_handle_room(old(drawing)@, pattern_handle_need(pattern@)),
        ensures
            !(pattern@.len() > 0 && pattern@[0] == 'A') ==> {
                &&& r == Err::<(), DxfError>(DxfError::MalformedString)
                &&& final(self)@ == old(self)@
                &&& final(drawing)@ == old(drawing)@
            },
            pattern@.len() > 0 && pattern@[0] == 'A' ==> {
                let st = pattern_final(old(self)@, old(drawing)@, pattern@);
                &&& final(self)@ == pattern_line_type(old(self)@, st)
                &&& final(drawing)@ == st.drawing
                &&& r == (match st.error {
                    Some(e) => Err::<(), DxfError>(e),
                    None => Ok(()),
                })
            },
    {
        let chars = vec_of(pattern);
        if !(chars.len() > 0 && chars[0] == 'A') {
            return Err(DxfError::MalformedString);
        }
        let rest = tail_from(chars.as_slice(), 2);
        let elements = self.parse_elements(rest.as_slice());
        let ghost es = strings_view(elements@);
        let ghost init = PatternState {
            elements: old(self)@.line_elements,
            count: old(self)@.element_count as int,
            current: default_element(),
            drawing: old(drawing)@,
            error: None,
        };
        proof {
            lemma_pattern_elements_size(pattern@.skip(2));
            assert(es.take(0) =~= Seq::<Seq<char>>::empty());
        }
        let open_bracket: Vec<char> = vec!['['];
        let mut line_type_element = LineTypeElement::default();
        let length = elements.len();
        let mut i: usize = 0;
        while i < length
            invariant
                length == elements@.len(),
                es == strings_view(elements@),
                es == pattern_elements(pattern@.skip(2)),
                es.len() <= pattern@.len() - 2,
                pattern@.len() > 0 && pattern@[0] == 'A',
                i <= length,
                open_bracket@ == seq!['['],
                init.elements == old(self)@.line_elements,
                init.count == old(self)@.element_count,
                init.current == default_element(),
                init.drawing == old(drawing)@,
                init.error is None,
                elements_run(init, es, i as int) == (PatternState {
                    elements: elements_view(self.line_elements@),
                    count: self.element_count as int,
                    current: line_type_element@,
                    drawing: drawing@,
                    error: None,
                }),
                self@ == (LineTypeModel {
                    line_elements: elements_view(self.line_elements@),
                    element_count: self.element_count,
                    ..old(self)@
                }),
                i == 0 ==> self.element_count == old(self)@.element_count,
                0 < i < length ==> self.element_count + 1 <= old(self)@.element_count + i,
                self.element_count <= old(self)@.element_count + i,
                old(self)@.element_count + es.len() <= i32::MAX,
                bracket_pieces(es) - bracket_pieces(es.take(i as int)) > 0 ==> handle_floor(
                    drawing@.last_handle,
                ) + (bracket_pieces(es) - bracket_pieces(es.take(i as int))) <= u64::MAX,
            decreases length - i,
        {
            let ghost st_i = elements_run(init, es, i as int);
            let element = vec_of(elements[i].as_str());
            proof {
                assert(strings_view(elements@)[i as int] == elements@[i as int]@);
                lemma_bracket_pieces_take(es, i as int);
            }
            let is_last = i == length - 1;
            if starts_with(element.as_slice(), open_bracket.as_slice()) {
                let nested = split_commas_exec(element.as_slice());
                let ghost ps = split_commas(es[i as int]);
                proof {
                    assert(has_prefix(es[i as int], seq!['[']));
                    assert(elements_run(init, es, i + 1) == element_step(st_i, es[i as int], i as int, i == es.len() - 1));
                    lemma_split_commas_len(es[i as int]);
                }
                let mut j: usize = 0;
                let ghost count_before = self.element_count;
                while j < nested.len()
                    invariant
                        self.element_count == count_before,
                        init.elements == old(self)@.line_elements,
                        init.count == old(self)@.element_count,
                        init.current == default_element(),
                        init.drawing == old(drawing)@,
                        init.error is None,
                        es == pattern_elements(pattern@.skip(2)),
                        st_i == elements_run(init, es, i as int),
                        has_prefix(es[i as int], seq!['[']),
                        elements_run(init, es, i + 1) == element_step(st_i, es[i as int], i as int, i == es.len() - 1),
                        nested@.map_values(|p: Vec<char>| p@) == ps,
                        i < length,
                        length == es.len(),
                        pattern@.len() > 0 && pattern@[0] == 'A',
                        ps == split_commas(es[i as int]),
                        ps.len() <= es[i as int].len() + 1,
                        j <= nested@.len(),
                                                                        st_i.error is None,
                        pieces_run(st_i, ps, j as int) == (PatternState {
                            elements: elements_view(self.line_elements@),
                            count: self.element_count as int,
                            current: line_type_element@,
                            drawing: drawing@,
                            error: None,
                        }),
                        j > 0 ==> line_type_element.text_string is Some,
                        self@ == (LineTypeModel {
                            line_elements: elements_view(self.line_elements@),
                            element_count: self.element_count,
                            ..old(self)@
                        }),
                        (ps.len() - j) + (bracket_pieces(es) - bracket_pieces(es.take(i + 1))) > 0
                            ==> handle_floor(drawing@.last_handle) + (ps.len() - j) + (bracket_pieces(es)
                            - bracket_pieces(es.take(i + 1))) <= u64::MAX,
                        bracket_pieces(es.take(i + 1)) <= bracket_pieces(es),
                        bracket_pieces(es.take(i + 1)) == bracket_pieces(es.take(i as int)) + ps.len(),
                    decreases nested.len() - j,
                {
                    let ghost st_j = pieces_run(st_i, ps, j as int);
                    proof {
                        assert(nested@.map_values(|p: Vec<char>| p@)[j as int] == nested@[j as int]@);
                        assert(pieces_run(st_i, ps, j + 1) == piece_step(st_j, ps[j as int], j as int));
                    }
                    proof {
                        assert(st_j == (PatternState {
                            elements: elements_of(self),
                            count: self.element_count as int,
                            current: line_type_element@,
                            drawing: drawing@,
                            error: None,
                        }));
                    }
                    let res = self.read_piece(drawing, &mut line_type_element, nested[j].as_slice(), j);
                    if let Err(e) = res {
                        proof {
                            assert(pieces_run(st_i, ps, j + 1).error == Some(e));
                            lemma_bracket_stop(init, es, i as int, ps, j + 1);
                        }
                        return Err(e);
                    }
                    j = j + 1;
                }
                if is_last {
                    self.push_element(&line_type_element);
                }
            } else {
                proof {
                    assert(elements_run(init, es, i + 1) == element_step(st_i, es[i as int], i as int, i == es.len() - 1));
                }
                if i > 0 {
                    self.push_element(&line_type_element);
                    // Create a new line type element
                    line_type_element = LineTypeElement::default();
                }
                match parse_real(element.as_slice()) {
                    Some(v) => {
                        line_type_element.dash_dot_space_length = v;
                    },
                    None => {
                        proof {
                            lemma_elements_error_persists(init, es, i + 1, es.len() as int);
                        }
                        return Err(DxfError::ParseFloatError);
                    },
                }
                if is_last {
                    self.push_element(&line_type_element);
                }
            }
            i = i + 1;
        }
        // Set total_length_pattern
        self.total_pattern_length = total_pattern_length_of(&self.line_elements);
        Ok(())
    }
}

//------------------------------------------------------------------------------
//                                                      line type code pairs
//------------------------------------------------------------------------------

/// One pair where a value is present, none where it is absent.
pub open spec fn opt_real_pair(code: i32, v: Option<Real>) -> Seq<PairView> {
    match v {
        Some(r) => seq![real_pair(code, r)],
        None => Seq::empty(),
    }
}

/// The shape number pair, where the element has a shape number.
pub open spec fn shape_pairs(e: ElementModel) -> Seq<PairView> {
    match e.shape_number {
        Some(n) => seq![short_pair(75, n)],
        None => Seq::empty(),
    }
}

/// The text style handle pair, where the element has a text style.
pub open spec fn style_handle_pairs(e: ElementModel) -> Seq<PairView> {
    match e.styles_handle {
        Some(h) => seq![str_pair(340, hex_upper(h.0 as nat))],
        None => Seq::empty(),
    }
}

/// The text pair, where the element has a text.
pub open spec fn text_pairs(e: ElementModel) -> Seq<PairView> {
    match e.text_string {
        Some(t) => seq![str_pair(9, t)],
        None => Seq::empty(),
    }
}

/// The pairs written from R13 on for an element: its type and whichever of
/// shape number, text style handle, scale, rotation, offsets and text it has.
pub open spec fn element_extra_pairs(e: ElementModel) -> Seq<PairView> {
    seq![short_pair(74, e.complex_line_type_element_type)] + shape_pairs(e) + style_handle_pairs(e)
        + opt_real_pair(46, e.scale_value) + opt_real_pair(50, e.rotation_angle) + opt_real_pair(
        44,
        e.x_offset,
    ) + opt_real_pair(45, e.y_offset) + text_pairs(e)
}

/// The pairs that write one line type element: its length, and from R13 on
/// `element_extra_pairs`.
pub open spec fn element_pairs(e: ElementModel, version: AcadVersion) -> Seq<PairView> {
    seq![real_pair(49, e.dash_dot_space_length)] + if version_at_least(version, AcadVersion::R13) {
        element_extra_pairs(e)
    } else {
        Seq::empty()
    }
}

/// The pairs that write a list of line type elements, in order.
pub open spec fn elements_pairs(es: Seq<ElementModel>, version: AcadVersion) -> Seq<PairView>
    decreases es.len(),
{
    if es.len() == 0 {
        Seq::empty()
    } else {
        elements_pairs(es.drop_last(), version) + element_pairs(es.last(), version)
    }
}

/// The pairs that write the pattern of a line type: description, alignment code,
/// element count, total length and the elements.
pub open spec fn line_type_pattern_pairs(lt: LineTypeModel, version: AcadVersion) -> Seq<PairView> {
    seq![
        str_pair(3, lt.description),
        short_pair(72, lt.alignment_code as i16),
        short_pair(73, lt.element_count as i16),
        real_pair(40, lt.total_pattern_length),
    ] + elements_pairs(lt.line_elements, version)
}

/// Appends a pair for a present real value.
fn push_opt_real(pairs: &mut Vec<CodePair>, code: i32, v: Option<Real>)
    ensures
        pairs_view(final(pairs)@) == pairs_view(old(pairs)@) + opt_real_pair(code, v),
{
    if let Some(r) = v {
        push_pair(pairs, CodePair::new_real(code, r));
        proof {
            assert(pairs_view(old(pairs)@).push(real_pair(code, r)) =~= pairs_view(old(pairs)@)
                + opt_real_pair(code, v));
        }
    } else {
        proof {
            assert(pairs_view(old(pairs)@) =~= pairs_view(old(pairs)@) + opt_real_pair(code, v));
        }
    }
}

/// Concatenation is associative.
pub(crate) proof fn lemma_add_assoc(a: Seq<PairView>, b: Seq<PairView>, c: Seq<PairView>)
    ensures
        (a + b) + c == a + (b + c),
{
    assert((a + b) + c =~= a + (b + c));
}

/// Appends the shape number pair of an element, where it has one.
fn push_shape(pairs: &mut Vec<CodePair>, e: &LineTypeElement)
    ensures
        pairs_view(final(pairs)@) == pairs_view(old(pairs)@) + shape_pairs(e@),
{
    if let Some(shape_number) = e.shape_number {
        push_pair(pairs, CodePair::new_i16(75, shape_number));
    }
    proof {
        assert(pairs_view(pairs@) =~= pairs_view(old(pairs)@) + shape_pairs(e@));
    }
}

/// Appends the text style handle pair of an element, where it has one.
fn push_style_handle(pairs: &mut Vec<CodePair>, e: &LineTypeElement)
    ensures
        pairs_view(final(pairs)@) == pairs_view(old(pairs)@) + style_handle_pairs(e@),
{
    if let Some(styles_handle) = e.__styles_handle {
        let text = styles_handle.as_string();
        push_pair(pairs, CodePair::new_str(340, text.as_str()));
    }
    proof {
        assert(pairs_view(pairs@) =~= pairs_view(old(pairs)@) + style_handle_pairs(e@));
    }
}

/// Appends the text pair of an element, where it has one.
fn push_text(pairs: &mut Vec<CodePair>, e: &LineTypeElement)
    ensures
        pairs_view(final(pairs)@) == pairs_view(old(pairs)@) + text_pairs(e@),
{
    if let Some(text_string) = &e.text_string {
        push_pair(pairs, CodePair::new_str(9, text_string.as_str()));
    }
    proof {
        assert(pairs_view(pairs@) =~= pairs_view(old(pairs)@) + text_pairs(e@));
    }
}

/// Appends the pairs written from R13 on for one line type element.
fn push_element_extra_pairs(pairs: &mut Vec<CodePair>, e: &LineTypeElement)
    ensures
        pairs_view(final(pairs)@) == pairs_view(old(pairs)@) + element_extra_pairs(e@),
{
    let ghost s0 = pairs_view(pairs@);
    let ghost ev = e@;
    push_pair(pairs, CodePair::new_i16(74, e.complex_line_type_element_type));
    let ghost p1 = seq![short_pair(74, e.complex_line_type_element_type)];
    proof {
        assert(pairs_view(pairs@) =~= s0 + p1);
    }
    push_shape(pairs, e);
    let ghost p2 = p1 + shape_pairs(ev);
    proof {
        lemma_add_assoc(s0, p1, shape_pairs(ev));
    }
    push_style_handle(pairs, e);
    let ghost p3 = p2 + style_handle_pairs(ev);
    proof {
        lemma_add_assoc(s0, p2, style_handle_pairs(ev));
    }
    push_opt_real(pairs, 46, e.scale_value);
    let ghost p4 = p3 + opt_real_pair(46, ev.scale_value);
    proof {
        lemma_add_assoc(s0, p3, opt_real_pair(46, ev.scale_value));
    }
    push_opt_real(pairs, 50, e.rotation_angle);
    let ghost p5 = p4 + opt_real_pair(50, ev.rotation_angle);
    proof {
        lemma_add_assoc(s0, p4, opt_real_pair(50, ev.rotation_angle));
    }
    push_opt_real(pairs, 44, e.x_offset);
    let ghost p6 = p5 + opt_real_pair(44, ev.x_offset);
    proof {
        lemma_add_assoc(s0, p5, opt_real_pair(44, ev.x_offset));
    }
    push_opt_real(pairs, 45, e.y_offset);
    let ghost p7 = p6 + opt_real_pair(45, ev.y_offset);
    proof {
        lemma_add_assoc(s0, p6, opt_real_pair(45, ev.y_offset));
    }
    push_text(pairs, e);
    proof {
        lemma_add_assoc(s0, p7, text_pairs(ev));
        assert(p7 + text_pairs(ev) == element_extra_pairs(ev));
    }
}

/// Appends the pairs of one line type element.
fn push_element_pairs(pairs: &mut Vec<CodePair>, e: &LineTypeElement, version: AcadVersion)
    ensures
        pairs_view(final(pairs)@) == pairs_view(old(pairs)@) + element_pairs(e@, version),
{
    let ghost start = pairs_view(pairs@);
    push_pair(pairs, CodePair::new_real(49, e.dash_dot_space_length));
    if version.at_least(AcadVersion::R13) {
        push_element_extra_pairs(pairs, e);
    }
    proof {
        assert(pairs_view(pairs@) =~= start + element_pairs(e@, version));
    }
}

/// Writes the pattern of a line type: its description, alignment code, element
/// count, total length and elements, as `line_type_pattern_pairs` describes.
pub(crate) fn custom_line_type_add_code_pairs(
    item: &LineType,
    pairs: &mut Vec<CodePair>,
    drawing: &Drawing,
)
    ensures
        pairs_view(final(pairs)@) == pairs_view(old(pairs)@) + line_type_pattern_pairs(
            item@,
            drawing@.version,
        ),
{
    let ghost start = pairs_view(pairs@);
    push_pair(pairs, CodePair::new_string(3, &item.description));
    push_pair(pairs, CodePair::new_i16(72, item.alignment_code as i16));
    push_pair(pairs, CodePair::new_i16(73, item.element_count as i16));
    push_pair(pairs, CodePair::new_real(40, item.total_pattern_length));
    let ghost head = pairs_view(pairs@);
    let version = drawing.version();
    // Specification alignement LineType TableSpec.xml
    let mut i: usize = 0;
    while i < item.line_elements.len()
        invariant
            i <= item.line_elements@.len(),
            pairs_view(pairs@) == head + elements_pairs(
                elements_view(item.line_elements@).take(i as int),
                version,
            ),
        decreases item.line_elements.len() - i,
    {
        proof {
            assert(elements_view(item.line_elements@).take(i + 1).drop_last()
                =~= elements_view(item.line_elements@).take(i as int));
        }
        push_element_pairs(pairs, &item.line_elements[i], version);
        i = i + 1;
        proof {
            assert(pairs_view(pairs@) =~= head + elements_pairs(
                elements_view(item.line_elements@).take(i as int),
                version,
            ));
        }
    }
    proof {
        assert(elements_view(item.line_elements@).take(i as int) =~= elements_view(
            item.line_elements@,
        ));
        assert(pairs_view(pairs@) =~= start + line_type_pattern_pairs(item@, version));
    }
}

/// Whether reading a pair with this code changes the last element of a line
/// type.
pub open spec fn changes_last_element(code: i32) -> bool {
    code == 74 || code == 75 || code == 46 || code == 44 || code == 45 || code == 9
}

/// The line type with its last element replaced.
pub open spec fn with_last(lt: LineTypeModel, e: ElementModel) -> LineTypeModel {
    LineTypeModel {
        line_elements: lt.line_elements.update(lt.line_elements.len() - 1, e),
        ..lt
    }
}

/// The line type after reading one of its pattern pairs: a length (49) starts a
/// new element; a type (74), shape number (75), scale (46), x offset (44),
/// y offset (45) or text (9) sets that part of the last element; a value of the
/// wrong type for its code is an error, and any other pair changes nothing.
pub open spec fn read_line_type_pair(lt: LineTypeModel, p: PairView) -> Result<LineTypeModel, DxfError> {
    let last = lt.line_elements.last();
    let wrong = Err(DxfError::WrongValueType(p.code));
    if p.code == 49 {
        match p.value {
            ValueView::Double(d) => Ok(LineTypeModel {
                line_elements: lt.line_elements.push(
                    ElementModel { dash_dot_space_length: d, ..default_element() },
                ),
                ..lt
            }),
            _ => wrong,
        }
    } else if p.code == 74 {
        match p.value {
            ValueView::Short(v) => Ok(with_last(lt, ElementModel { complex_line_type_element_type: v, ..last })),
            _ => wrong,
        }
    } else if p.code == 75 {
        match p.value {
            ValueView::Short(v) => Ok(with_last(lt, ElementModel { shape_number: Some(v), ..last })),
            _ => wrong,
        }
    } else if p.code == 46 {
        match p.value {
            ValueView::Double(d) => Ok(with_last(lt, ElementModel { scale_value: Some(d), ..last })),
            _ => wrong,
        }
    } else if p.code == 44 {
        match p.value {
            ValueView::Double(d) => Ok(with_last(lt, ElementModel { x_offset: Some(d), ..last })),
            _ => wrong,
        }
    } else if p.code == 45 {
        match p.value {
            ValueView::Double(d) => Ok(with_last(lt, ElementModel { y_offset: Some(d), ..last })),
            _ => wrong,
        }
    } else if p.code == 9 {
        match p.value {
            ValueView::Str(t) => Ok(with_last(lt, ElementModel { text_string: Some(t), ..last })),
            _ => wrong,
        }
    } else {
        Ok(lt)
    }
}

/// Replaces the last element of a line type.
fn set_last_element(line_type: &mut LineType, e: LineTypeElement)
    requires
        old(line_type).line_elements@.len() > 0,
    ensures
        final(line_type)@ == with_last(old(line_type)@, e@),
{
    let n = line_type.line_elements.len();
    let ghost v = e@;
    line_type.line_elements.set(n - 1, e);
    proof {
        assert(elements_view(line_type.line_elements@) =~= old(line_type)@.line_elements.update(
            n - 1,
            v,
        ));
    }
}

/// Reads one pair of a line type's pattern into the line type, as
/// `read_line_type_pair` describes; where it fails, the line type is unchanged.
pub(crate) fn custom_read_line_type_code_pairs(pair: CodePair, line_type: &mut LineType) -> (r: DxfResult<()>)
    requires
        changes_last_element(pair.code) ==> old(line_type).line_elements@.len() > 0,
    ensures
        match read_line_type_pair(old(line_type)@, pair@) {
            Ok(lt) => r is Ok && final(line_type)@ == lt,
            Err(e) => r == Err::<(), DxfError>(e) && final(line_type)@ == old(line_type)@,
        },
{
    if pair.code == 49 {
        let d = pair.assert_real()?;
        let mut element = LineTypeElement::default();
        element.dash_dot_space_length = d;
        let ghost v = element@;
        line_type.line_elements.push(element);
        proof {
            assert(elements_view(line_type.line_elements@) =~= old(line_type)@.line_elements.push(v));
        }
        return Ok(());
    }
    let code = pair.code;
    if !(code == 74 || code == 75 || code == 46 || code == 44 || code == 45 || code == 9) {
        return Ok(());
    }
    let n = line_type.line_elements.len();
    let mut element = line_type.line_elements[n - 1].clone();
    proof {
        assert(element@ == old(line_type)@.line_elements.last());
    }
    if pair.code == 74 {
        element.complex_line_type_element_type = pair.assert_i16()?;
    } else if pair.code == 75 {
        element.shape_number = Some(pair.assert_i16()?);
    } else if pair.code == 46 {
        element.scale_value = Some(pair.assert_real()?);
    } else if pair.code == 44 {
        element.x_offset = Some(pair.assert_real()?);
    } else if pair.code == 45 {
        element.y_offset = Some(pair.assert_real()?);
    } else {
        element.text_string = Some(pair.assert_string()?);
    }
    set_last_element(line_type, element);
    Ok(())
}


/// One step of reading pattern pairs one after another, as
/// `custom_read_line_type_code_pairs` does for each: a pair that changes the
/// last element where there is none is refused (there the function may not be
/// called), and any other pair is read as `read_line_type_pair` describes.
pub open spec fn read_pattern_step(lt: LineTypeModel, p: PairView) -> Result<LineTypeModel, DxfError> {
    if changes_last_element(p.code) && lt.line_elements.len() == 0 {
        Err(DxfError::UnexpectedCodePair(p.code))
    } else {
        read_line_type_pair(lt, p)
    }
}

/// The line type after reading the pattern pairs `ps` in turn, as
/// `read_pattern_step` describes; the first error stops the reading.
pub open spec fn read_pattern_pairs(lt: LineTypeModel, ps: Seq<PairView>) -> Result<LineTypeModel, DxfError>
    decreases ps.len(),
{
    if ps.len() == 0 {
        Ok(lt)
    } else {
        match read_pattern_pairs(lt, ps.drop_last()) {
            Ok(l) => read_pattern_step(l, ps.last()),
            Err(e) => Err(e),
        }
    }
}

/// What reading back the pairs written for an element gives: from R13 on the
/// element without its text style handle and rotation angle (which are not
/// read); before R13, where only its length is written, a default element with
/// that length.
pub open spec fn kept_element(e: ElementModel, v: AcadVersion) -> ElementModel {
    if version_at_least(v, AcadVersion::R13) {
        ElementModel { styles_handle: None, rotation_angle: None, ..e }
    } else {
        ElementModel { dash_dot_space_length: e.dash_dot_space_length, ..default_element() }
    }
}

proof fn lemma_read_pattern_append(lt: LineTypeModel, a: Seq<PairView>, b: Seq<PairView>)
    ensures
        read_pattern_pairs(lt, a + b) == match read_pattern_pairs(lt, a) {
            Ok(m) => read_pattern_pairs(m, b),
            Err(e) => Err(e),
        },
    decreases b.len(),
{
    if b.len() == 0 {
        assert(a + b =~= a);
    } else {
        lemma_read_pattern_append(lt, a, b.drop_last());
        assert((a + b).drop_last() =~= a + b.drop_last());
        match read_pattern_pairs(lt, a) {
            Ok(m) => {},
            Err(e) => {},
        }
    }
}

proof fn lemma_read_pattern_push(lt: LineTypeModel, ps: Seq<PairView>, p: PairView)
    ensures
        read_pattern_pairs(lt, ps.push(p)) == match read_pattern_pairs(lt, ps) {
            Ok(m) => read_pattern_step(m, p),
            Err(e) => Err(e),
        },
{
    assert(ps.push(p).drop_last() =~= ps);
}

proof fn lemma_read_pattern_one(lt: LineTypeModel, p: PairView)
    ensures
        read_pattern_pairs(lt, seq![p]) == read_pattern_step(lt, p),
{
    lemma_read_pattern_push(lt, Seq::<PairView>::empty(), p);
    assert(Seq::<PairView>::empty().push(p) =~= seq![p]);
}

/// The line type with its last element, after `pre`, being `cur`.
pub open spec fn with_current(lt: LineTypeModel, pre: Seq<ElementModel>, cur: ElementModel) -> LineTypeModel {
    LineTypeModel { line_elements: pre.push(cur), ..lt }
}

/// Reading a pair that sets a part of the last element.
proof fn lemma_read_set_last(lt: LineTypeModel, pre: Seq<ElementModel>, cur: ElementModel, p: PairView, next: ElementModel)
    requires
        changes_last_element(p.code),
        read_line_type_pair(with_current(lt, pre, cur), p) == Ok::<LineTypeModel, DxfError>(
            with_last(with_current(lt, pre, cur), next),
        ),
    ensures
        read_pattern_pairs(with_current(lt, pre, cur), seq![p]) == Ok::<LineTypeModel, DxfError>(
            with_current(lt, pre, next),
        ),
{
    lemma_read_pattern_one(with_current(lt, pre, cur), p);
    assert(pre.push(cur).update(pre.len() as int, next) =~= pre.push(next));
}

/// Reading a pair that no element part is read from changes nothing.
proof fn lemma_read_ignored(lt: LineTypeModel, p: PairView)
    requires
        p.code != 49,
        !changes_last_element(p.code),
    ensures
        read_pattern_pairs(lt, seq![p]) == Ok::<LineTypeModel, DxfError>(lt),
{
    lemma_read_pattern_one(lt, p);
}

/// Reading the optional pairs of codes 340 and 50 changes nothing.
proof fn lemma_read_unread_parts(lt: LineTypeModel, e: ElementModel)
    ensures
        read_pattern_pairs(lt, style_handle_pairs(e)) == Ok::<LineTypeModel, DxfError>(lt),
        read_pattern_pairs(lt, opt_real_pair(50, e.rotation_angle)) == Ok::<LineTypeModel, DxfError>(lt),
{
    match e.styles_handle {
        Some(h) => {
            assert(style_handle_pairs(e) == seq![str_pair(340, hex_upper(h.0 as nat))]);
            lemma_read_ignored(lt, str_pair(340, hex_upper(h.0 as nat)));
        },
        None => {
            assert(style_handle_pairs(e) =~= Seq::<PairView>::empty());
        },
    }
    match e.rotation_angle {
        Some(r) => {
            assert(opt_real_pair(50, e.rotation_angle) == seq![real_pair(50, r)]);
            lemma_read_ignored(lt, real_pair(50, r));
        },
        None => {
            assert(opt_real_pair(50, e.rotation_angle) =~= Seq::<PairView>::empty());
        },
    }
}

/// Reading the type, shape number and text style handle pairs of an element.
proof fn lemma_read_extras_head(lt: LineTypeModel, pre: Seq<ElementModel>, e0: ElementModel, e: ElementModel)
    requires
        e0.shape_number is None,
    ensures
        read_pattern_pairs(
            with_current(lt, pre, e0),
            seq![short_pair(74, e.complex_line_type_element_type)] + shape_pairs(e) + style_handle_pairs(e),
        ) == Ok::<LineTypeModel, DxfError>(with_current(
            lt,
            pre,
            ElementModel {
                complex_line_type_element_type: e.complex_line_type_element_type,
                shape_number: e.shape_number,
                ..e0
            },
        )),
{
    let e1 = ElementModel { complex_line_type_element_type: e.complex_line_type_element_type, ..e0 };
    let e2 = ElementModel { shape_number: e.shape_number, ..e1 };
    let p74 = short_pair(74, e.complex_line_type_element_type);
    lemma_read_set_last(lt, pre, e0, p74, e1);
    match e.shape_number {
        Some(n) => {
            assert(shape_pairs(e) == seq![short_pair(75, n)]);
            lemma_read_set_last(lt, pre, e1, short_pair(75, n), e2);
        },
        None => {
            assert(shape_pairs(e) =~= Seq::<PairView>::empty());
            assert(e2 == e1);
        },
    }
    lemma_read_unread_parts(with_current(lt, pre, e2), e);
    lemma_read_pattern_append(with_current(lt, pre, e0), seq![p74], shape_pairs(e));
    lemma_read_pattern_append(with_current(lt, pre, e0), seq![p74] + shape_pairs(e), style_handle_pairs(e));
}

/// Reading the scale, rotation, offset and text pairs of an element.
proof fn lemma_read_extras_tail(lt: LineTypeModel, pre: Seq<ElementModel>, e2: ElementModel, e: ElementModel)
    requires
        e2.scale_value is None,
        e2.x_offset is None,
        e2.y_offset is None,
        e2.text_string is None,
    ensures
        read_pattern_pairs(
            with_current(lt, pre, e2),
            opt_real_pair(46, e.scale_value) + opt_real_pair(50, e.rotation_angle) + opt_real_pair(
                44,
                e.x_offset,
            ) + opt_real_pair(45, e.y_offset) + text_pairs(e),
        ) == Ok::<LineTypeModel, DxfError>(with_current(
            lt,
            pre,
            ElementModel {
                scale_value: e.scale_value,
                x_offset: e.x_offset,
                y_offset: e.y_offset,
                text_string: e.text_string,
                ..e2
            },
        )),
{
    let e3 = ElementModel { scale_value: e.scale_value, ..e2 };
    let e4 = ElementModel { x_offset: e.x_offset, ..e3 };
    let e5 = ElementModel { y_offset: e.y_offset, ..e4 };
    let e6 = ElementModel { text_string: e.text_string, ..e5 };
    match e.scale_value {
        Some(r) => lemma_read_set_last(lt, pre, e2, real_pair(46, r), e3),
        None => {
            assert(opt_real_pair(46, e.scale_value) =~= Seq::<PairView>::empty());
            assert(e3 == e2);
        },
    }
    lemma_read_unread_parts(with_current(lt, pre, e3), e);
    match e.x_offset {
        Some(r) => lemma_read_set_last(lt, pre, e3, real_pair(44, r), e4),
        None => {
            assert(opt_real_pair(44, e.x_offset) =~= Seq::<PairView>::empty());
            assert(e4 == e3);
        },
    }
    match e.y_offset {
        Some(r) => lemma_read_set_last(lt, pre, e4, real_pair(45, r), e5),
        None => {
            assert(opt_real_pair(45, e.y_offset) =~= Seq::<PairView>::empty());
            assert(e5 == e4);
        },
    }
    match e.text_string {
        Some(t) => {
            assert(text_pairs(e) == seq![str_pair(9, t)]);
            lemma_read_set_last(lt, pre, e5, str_pair(9, t), e6);
        },
        None => {
            assert(text_pairs(e) =~= Seq::<PairView>::empty());
            assert(e6 == e5);
        },
    }
    let l = with_current(lt, pre, e2);
    let d = opt_real_pair(46, e.scale_value);
    let d2 = opt_real_pair(50, e.rotation_angle);
    let f = opt_real_pair(44, e.x_offset);
    let g = opt_real_pair(45, e.y_offset);
    let h = text_pairs(e);
    lemma_read_pattern_append(l, d, d2);
    lemma_read_pattern_append(l, d + d2, f);
    lemma_read_pattern_append(l, d + d2 + f, g);
    lemma_read_pattern_append(l, d + d2 + f + g, h);
}

/// Reading back the pairs written for one element appends what
/// `kept_element` keeps of it.
proof fn lemma_read_element_pairs(lt: LineTypeModel, e: ElementModel, v: AcadVersion)
    ensures
        read_pattern_pairs(lt, element_pairs(e, v)) == Ok::<LineTypeModel, DxfError>(
            LineTypeModel { line_elements: lt.line_elements.push(kept_element(e, v)), ..lt },
        ),
{
    let pre = lt.line_elements;
    let e0 = ElementModel { dash_dot_space_length: e.dash_dot_space_length, ..default_element() };
    let p49 = real_pair(49, e.dash_dot_space_length);
    lemma_read_pattern_one(lt, p49);
    assert(read_pattern_pairs(lt, seq![p49]) == Ok::<LineTypeModel, DxfError>(with_current(lt, pre, e0)));
    if version_at_least(v, AcadVersion::R13) {
        let head = seq![short_pair(74, e.complex_line_type_element_type)] + shape_pairs(e) + style_handle_pairs(e);
        let tail = opt_real_pair(46, e.scale_value) + opt_real_pair(50, e.rotation_angle) + opt_real_pair(
            44,
            e.x_offset,
        ) + opt_real_pair(45, e.y_offset) + text_pairs(e);
        lemma_read_extras_head(lt, pre, e0, e);
        let e2 = ElementModel {
            complex_line_type_element_type: e.complex_line_type_element_type,
            shape_number: e.shape_number,
            ..e0
        };
        lemma_read_extras_tail(lt, pre, e2, e);
        assert(element_pairs(e, v) =~= seq![p49] + head + tail);
        lemma_read_pattern_append(lt, seq![p49], head);
        lemma_read_pattern_append(lt, seq![p49] + head, tail);
        assert(ElementModel {
            scale_value: e.scale_value,
            x_offset: e.x_offset,
            y_offset: e.y_offset,
            text_string: e.text_string,
            ..e2
        } == kept_element(e, v));
    } else {
        assert(element_pairs(e, v) =~= seq![p49]);
        assert(e0 == kept_element(e, v));
    }
}

/// Reading back the pairs written for some elements appends what
/// `kept_element` keeps of each, in order.
proof fn lemma_read_elements_pairs(lt: LineTypeModel, es: Seq<ElementModel>, v: AcadVersion)
    ensures
        read_pattern_pairs(lt, elements_pairs(es, v)) == Ok::<LineTypeModel, DxfError>(LineTypeModel {
            line_elements: lt.line_elements + es.map_values(|e: ElementModel| kept_element(e, v)),
            ..lt
        }),
    decreases es.len(),
{
    if es.len() == 0 {
        assert(lt.line_elements + es.map_values(|e: ElementModel| kept_element(e, v)) =~= lt.line_elements);
        assert(elements_pairs(es, v) =~= Seq::<PairView>::empty());
    } else {
        lemma_read_elements_pairs(lt, es.drop_last(), v);
        let y = LineTypeModel {
            line_elements: lt.line_elements + es.drop_last().map_values(|e: ElementModel| kept_element(e, v)),
            ..lt
        };
        lemma_read_element_pairs(y, es.last(), v);
        lemma_read_pattern_append(lt, elements_pairs(es.drop_last(), v), element_pairs(es.last(), v));
        assert((lt.line_elements + es.drop_last().map_values(|e: ElementModel| kept_element(e, v))).push(
            kept_element(es.last(), v),
        ) =~= lt.line_elements + es.map_values(|e: ElementModel| kept_element(e, v)));
    }
}

/// Reading back, pair by pair with `custom_read_line_type_code_pairs`, the
/// pattern pairs that `custom_line_type_add_code_pairs` writes for a line type
/// succeeds at every pair and appends the line type's elements in order: from
/// R13 on each with its length, type, shape number, scale, offsets and text
/// (its text style handle and rotation angle are not read back); before R13,
/// where only lengths are written, default elements with those lengths. The
/// description, alignment code, element count and total length pairs change
/// nothing.
pub proof fn pattern_pairs_round_trip_law(lt: LineTypeModel, x: LineTypeModel, v: AcadVersion)
    ensures
        read_pattern_pairs(lt, line_type_pattern_pairs(x, v)) == Ok::<LineTypeModel, DxfError>(LineTypeModel {
            line_elements: lt.line_elements + x.line_elements.map_values(|e: ElementModel| kept_element(e, v)),
            ..lt
        }),
{
    let head = seq![
        str_pair(3, x.description),
        short_pair(72, #[verifier::truncate] (x.alignment_code as i16)),
        short_pair(73, #[verifier::truncate] (x.element_count as i16)),
        real_pair(40, x.total_pattern_length),
    ];
    let e = Seq::<PairView>::empty();
    assert(head =~= e.push(head[0]).push(head[1]).push(head[2]).push(head[3]));
    lemma_read_pattern_push(lt, e, head[0]);
    lemma_read_pattern_push(lt, e.push(head[0]), head[1]);
    lemma_read_pattern_push(lt, e.push(head[0]).push(head[1]), head[2]);
    lemma_read_pattern_push(lt, e.push(head[0]).push(head[1]).push(head[2]), head[3]);
    assert(read_pattern_pairs(lt, head) == Ok::<LineTypeModel, DxfError>(lt));
    lemma_read_pattern_append(lt, head, elements_pairs(x.line_elements, v));
    lemma_read_elements_pairs(lt, x.line_elements, v);
}

/// From R13 on, reading back into a line type without elements, pair by pair
/// with `custom_read_line_type_code_pairs`, the pattern pairs that
/// `custom_line_type_add_code_pairs` writes succeeds at every pair and gives as
/// many elements as were written, each equal to the written one in length,
/// type, shape number, scale, offsets and text.
pub proof fn pattern_pairs_read_back_law(lt: LineTypeModel, x: LineTypeModel, v: AcadVersion)
    requires
        version_at_least(v, AcadVersion::R13),
        lt.line_elements.len() == 0,
    ensures
        read_pattern_pairs(lt, line_type_pattern_pairs(x, v)) matches Ok(back) && {
            &&& back.line_elements.len() == x.line_elements.len()
            &&& forall|i: int| 0 <= i < x.line_elements.len() ==> {
                let a = #[trigger] back.line_elements[i];
                let b = x.line_elements[i];
                &&& a.dash_dot_space_length == b.dash_dot_space_length
                &&& a.complex_line_type_element_type == b.complex_line_type_element_type
                &&& a.shape_number == b.shape_number
                &&& a.scale_value == b.scale_value
                &&& a.x_offset == b.x_offset
                &&& a.y_offset == b.y_offset
                &&& a.text_string == b.text_string
            }
        },
{
    pattern_pairs_round_trip_law(lt, x, v);
    let back = LineTypeModel {
        line_elements: lt.line_elements + x.line_elements.map_values(|e: ElementModel| kept_element(e, v)),
        ..lt
    };
    assert forall|i: int| 0 <= i < x.line_elements.len() implies back.line_elements[i] == kept_element(
        x.line_elements[i],
        v,
    ) by {
        assert(back.line_elements[i] == x.line_elements.map_values(|e: ElementModel| kept_element(e, v))[i]);
    }
}

/// A bracket setting `S=t`, `R=t`, `X=t` or `Y=t` sets the scale, rotation
/// angle, x offset or y offset (in that order of letters) of the element being
/// built to the real that `t` denotes, and changes nothing else; where `t` is
/// not a numeral the reading stops with a number error and the element stays
/// as it was.
pub proof fn bracket_setting_law(st: PatternState, letter: char, t: Seq<char>)
    requires
        letter == 'S' || letter == 'R' || letter == 'X' || letter == 'Y',
    ensures
        ({
            let after = apply_setting(st, seq![letter, '='] + t);
            &&& after.elements == st.elements
            &&& after.count == st.count
            &&& after.drawing == st.drawing
            &&& after.current.dash_dot_space_length == st.current.dash_dot_space_length
            &&& after.current.complex_line_type_element_type == st.current.complex_line_type_element_type
            &&& after.current.shape_number == st.current.shape_number
            &&& after.current.styles_handle == st.current.styles_handle
            &&& after.current.text_string == st.current.text_string
            &&& match real_of_text(t) {
                Some(r) => {
                    &&& after.error == st.error
                    &&& after.current.scale_value == if letter == 'S' { Some(r) } else { st.current.scale_value }
                    &&& after.current.rotation_angle == if letter == 'R' { Some(r) } else { st.current.rotation_angle }
                    &&& after.current.x_offset == if letter == 'X' { Some(r) } else { st.current.x_offset }
                    &&& after.current.y_offset == if letter == 'Y' { Some(r) } else { st.current.y_offset }
                },
                None => {
                    &&& after.error == Some(DxfError::ParseFloatError)
                    &&& after.current == st.current
                },
            }
        }),
{
    let q = seq![letter, '='] + t;
    assert(q[0] == letter);
    assert(q[1] == '=');
    assert(q.skip(2) =~= t);
    assert(q != standard_word()) by {
        if q == standard_word() {
            assert(standard_word()[1] == 'T');
        }
    }
    assert(has_prefix(q, seq![letter, '='])) by {
        assert(q.subrange(0, 2) =~= seq![letter, '=']);
    }
    assert(has_prefix(q, seq!['S', '=']) == (letter == 'S')) by {
        assert(q.subrange(0, 2) =~= seq![letter, '=']);
    }
    assert(has_prefix(q, seq!['R', '=']) == (letter == 'R')) by {
        assert(q.subrange(0, 2) =~= seq![letter, '=']);
    }
    assert(has_prefix(q, seq!['X', '=']) == (letter == 'X')) by {
        assert(q.subrange(0, 2) =~= seq![letter, '=']);
    }
}

/// Before R13 a line type's pattern is written as its description, alignment
/// code, element count and total length, then for each element, in order,
/// exactly one pair: `(49, length)`; nothing else of an element is written.
pub proof fn pattern_pairs_before_r13_law(x: LineTypeModel, v: AcadVersion)
    requires
        !version_at_least(v, AcadVersion::R13),
    ensures
        ({
            let s = line_type_pattern_pairs(x, v);
            &&& s.len() == 4 + x.line_elements.len()
            &&& s[0] == PairView { code: 3, value: ValueView::Str(x.description) }
            &&& s[3] == PairView { code: 40, value: ValueView::Double(x.total_pattern_length) }
            &&& forall|i: int|
                0 <= i < x.line_elements.len() ==> s[4 + i] == (PairView {
                    code: 49,
                    value: ValueView::Double(#[trigger] x.line_elements[i].dash_dot_space_length),
                })
        }),
{
    lemma_elements_pairs_before_r13(x.line_elements, v);
}

proof fn lemma_elements_pairs_before_r13(es: Seq<ElementModel>, v: AcadVersion)
    requires
        !version_at_least(v, AcadVersion::R13),
    ensures
        elements_pairs(es, v).len() == es.len(),
        forall|i: int|
            0 <= i < es.len() ==> elements_pairs(es, v)[i] == (PairView {
                code: 49,
                value: ValueView::Double(#[trigger] es[i].dash_dot_space_length),
            }),
    decreases es.len(),
{
    if es.len() > 0 {
        let init = es.drop_last();
        lemma_elements_pairs_before_r13(init, v);
        assert(element_pairs(es.last(), v) =~= seq![real_pair(49, es.last().dash_dot_space_length)]);
        assert forall|i: int| 0 <= i < es.len() implies elements_pairs(es, v)[i] == PairView {
            code: 49,
            value: ValueView::Double(#[trigger] es[i].dash_dot_space_length),
        } by {
            if i < init.len() {
                assert(init[i] == es[i]);
            }
        }
    }
}

/// A setting of a bracket group changes neither the drawing, the elements read
/// so far, nor the current element's length, type, shape, text style or text.
proof fn lemma_apply_setting_keeps(st: PatternState, q: Seq<char>)
    ensures
        ({
            let after = apply_setting(st, q);
            &&& after.drawing == st.drawing
            &&& after.elements == st.elements
            &&& after.count == st.count
            &&& after.current.dash_dot_space_length == st.current.dash_dot_space_length
            &&& after.current.complex_line_type_element_type == st.current.complex_line_type_element_type
            &&& after.current.shape_number == st.current.shape_number
            &&& after.current.styles_handle == st.current.styles_handle
            &&& after.current.text_string == st.current.text_string
        }),
{
}

/// `s` with every `/` written as the letters `forwardslash`.
pub open spec fn slashes_spelled(s: Seq<char>) -> Seq<char> {
    s.map_values(
        |x: char|
            if x == '/' {
                seq!['f', 'o', 'r', 'w', 'a', 'r', 'd', 's', 'l', 'a', 's', 'h']
            } else {
                seq![x]
            },
    ).flatten()
}

/// The first piece of a bracket group must start with `["`: otherwise the
/// reading stops as malformed and nothing else changes. Otherwise the current
/// element gets as its text the piece without its `[` and `"` characters,
/// becomes a text element (type 2, shape number 0), and gets the handle of the
/// text style named by that text with each `/` spelled `forwardslash` (found,
/// or added to the drawing); its length and the elements read so far stay.
pub proof fn first_bracket_piece_law(st: PatternState, piece: Seq<char>)
    requires
        st.error is None,
    ensures
        ({
            let after = piece_step(st, piece, 0);
            let text = piece.filter(|x: char| x != '[').filter(|x: char| x != '"');
            let style = with_text_style(st.drawing, slashes_spelled(text));
            &&& !has_prefix(piece, seq!['[', '"']) ==> after == (PatternState {
                error: Some(DxfError::MalformedString),
                ..st
            })
            &&& has_prefix(piece, seq!['[', '"']) ==> {
                &&& after.current.text_string == Some(text)
                &&& after.current.complex_line_type_element_type == 2
                &&& after.current.shape_number == Some(0i16)
                &&& after.current.styles_handle == Some(Handle(style.1))
                &&& after.drawing == style.0
                &&& after.current.dash_dot_space_length == st.current.dash_dot_space_length
                &&& after.elements == st.elements
                &&& after.count == st.count
            }
        }),
{
    remove_char_law(piece, '[');
    remove_char_law(remove_char(piece, '['), '"');
    let text = remove_char(remove_char(piece, '['), '"');
    replace_slash_law(text);
    let cur1 = ElementModel { text_string: Some(text), ..st.current };
    let style = with_text_style(st.drawing, replace_slash(text));
    let cur2 = ElementModel {
        complex_line_type_element_type: 2,
        shape_number: Some(0),
        styles_handle: Some(Handle(style.1)),
        ..cur1
    };
    lemma_apply_setting_keeps(
        PatternState { current: cur2, drawing: style.0, ..st },
        remove_char(remove_char(piece, '['), ']'),
    );
}

/// A later piece of a bracket group keeps the current element's text, makes it
/// a text element (type 2, shape number 0) with the handle of the text style
/// named by that text with each `/` spelled `forwardslash`, and keeps its
/// length and the elements read so far.
pub proof fn later_bracket_piece_law(st: PatternState, piece: Seq<char>, j: int, t: Seq<char>)
    requires
        st.error is None,
        j > 0,
        st.current.text_string == Some(t),
    ensures
        ({
            let after = piece_step(st, piece, j);
            let style = with_text_style(st.drawing, slashes_spelled(t));
            &&& after.current.text_string == Some(t)
            &&& after.current.complex_line_type_element_type == 2
            &&& after.current.shape_number == Some(0i16)
            &&& after.current.styles_handle == Some(Handle(style.1))
            &&& after.drawing == style.0
            &&& after.current.dash_dot_space_length == st.current.dash_dot_space_length
            &&& after.elements == st.elements
            &&& after.count == st.count
        }),
{
    replace_slash_law(t);
    let style = with_text_style(st.drawing, replace_slash(t));
    let cur2 = ElementModel {
        complex_line_type_element_type: 2,
        shape_number: Some(0),
        styles_handle: Some(Handle(style.1)),
        ..st.current
    };
    lemma_apply_setting_keeps(
        PatternState { current: cur2, drawing: style.0, ..st },
        remove_char(remove_char(piece, '['), ']'),
    );
}

/// A pattern element that is not a bracket group is a length: unless it is the
/// first element, the element built so far is appended and a new element with
/// nothing on it is started; its length becomes the real that the text
/// denotes, and after the last element it is appended too. A text that is not
/// a numeral stops the reading with a number error. The drawing stays.
pub proof fn plain_element_law(st: PatternState, e: Seq<char>, i: int, is_last: bool)
    requires
        st.error is None,
        !has_prefix(e, seq!['[']),
    ensures
        ({
            let after = element_step(st, e, i, is_last);
            let fresh = ElementModel {
                dash_dot_space_length: Real::Finite { negative: false, digits: 0, exponent: 0 },
                complex_line_type_element_type: 0,
                shape_number: None,
                styles_handle: None,
                rotation_angle: None,
                text_string: None,
                scale_value: None,
                x_offset: None,
                y_offset: None,
            };
            let prev = if i > 0 { st.elements.push(st.current) } else { st.elements };
            let base = if i > 0 { fresh } else { st.current };
            &&& after.drawing == st.drawing
            &&& match real_of_text(e) {
                None => after.error == Some(DxfError::ParseFloatError) && after.elements == prev,
                Some(r) => {
                    let built = ElementModel { dash_dot_space_length: r, ..base };
                    &&& after.error is None
                    &&& after.elements == if is_last { prev.push(built) } else { prev }
                    &&& !is_last ==> after.current == built
                },
            }
        }),
{
}

/// How many of shape number, text style handle, scale, rotation angle, x and
/// y offset and text an element has.
pub open spec fn present_count(e: ElementModel) -> int {
    (if e.shape_number is Some { 1int } else { 0int }) + (if e.styles_handle is Some { 1int } else { 0int })
        + (if e.scale_value is Some { 1int } else { 0int }) + (if e.rotation_angle is Some { 1int } else { 0int })
        + (if e.x_offset is Some { 1int } else { 0int }) + (if e.y_offset is Some { 1int } else { 0int })
        + (if e.text_string is Some { 1int } else { 0int })
}

/// From R13 on an element is written as its length `(49, ..)` and type
/// `(74, ..)`, then one pair for each of shape number, text style handle,
/// scale, rotation angle, x and y offset and text that it has: among them a
/// rotation angle `r` as `(50, r)` and a text style handle `h` as `(340, h)` in
/// upper-case hexadecimal.
pub proof fn element_pairs_from_r13_law(e: ElementModel, v: AcadVersion)
    requires
        version_at_least(v, AcadVersion::R13),
    ensures
        ({
            let s = element_pairs(e, v);
            &&& s.len() == 2 + present_count(e)
            &&& s[0] == (PairView { code: 49, value: ValueView::Double(e.dash_dot_space_length) })
            &&& s[1] == (PairView { code: 74, value: ValueView::Short(e.complex_line_type_element_type) })
            &&& e.rotation_angle matches Some(r) ==> s.contains(
                PairView { code: 50, value: ValueView::Double(r) },
            )
            &&& e.styles_handle matches Some(h) ==> s.contains(
                PairView { code: 340, value: ValueView::Str(hex_upper(h.0 as nat)) },
            )
        }),
{
    let a1 = shape_pairs(e);
    let a2 = style_handle_pairs(e);
    let a3 = opt_real_pair(46, e.scale_value);
    let a4 = opt_real_pair(50, e.rotation_angle);
    let a5 = opt_real_pair(44, e.x_offset);
    let a6 = opt_real_pair(45, e.y_offset);
    let a7 = text_pairs(e);
    let y1 = seq![short_pair(74, e.complex_line_type_element_type)] + a1;
    let y2 = y1 + a2;
    let y3 = y2 + a3;
    let y4 = y3 + a4;
    let y5 = y4 + a5;
    let y6 = y5 + a6;
    let y7 = y6 + a7;
    assert(element_extra_pairs(e) == y7);
    let s = element_pairs(e, v);
    assert(s == seq![real_pair(49, e.dash_dot_space_length)] + y7);
    assert(s[1] == y7[0]);
    assert(y7[0] == y1[0]);
    if e.rotation_angle is Some {
        let j = y3.len() as int;
        assert(y4[j] == a4[0]);
        assert(y7[j] == y4[j]);
        assert(s[1 + j] == y7[j]);
    }
    if e.styles_handle is Some {
        let j = y1.len() as int;
        assert(y2[j] == a2[0]);
        assert(y7[j] == y2[j]);
        assert(s[1 + j] == y7[j]);
    }
}

} // verus!
