//! The items of a drawing's tables, and their normalization.

use vstd::prelude::*;
use vstd::view::View as _;

use crate::code_pair::{CodePair, PairView};
use crate::color::Color;
use crate::decimal::{at_most_zero, lemma_small_wholes, real_zero, whole, Real};
use crate::handle::Handle;
use crate::point::Vector;

verus! {

/// The view of an optional text.
pub open spec fn opt_text(s: Option<String>) -> Option<Seq<char>> {
    match s {
        Some(t) => Some(t@),
        None => None,
    }
}

//------------------------------------------------------------------------------
//                                                              extension data
//------------------------------------------------------------------------------

/// One item of an extension data group.
#[derive(Clone, Debug, PartialEq)]
pub enum ExtensionGroupItem {
    CodePair(CodePair),
}

/// A group of code pairs that an application attached to an item.
#[derive(Clone, Debug, PartialEq)]
pub struct ExtensionGroup {
    pub application_name: String,
    pub items: Vec<ExtensionGroupItem>,
}

/// What an extension data group holds.
#[verifier::ext_equal]
pub struct GroupModel {
    pub application_name: Seq<char>,
    pub items: Seq<PairView>,
}

impl vstd::view::View for ExtensionGroupItem {
    type V = PairView;

    open spec fn view(&self) -> PairView {
        match self {
            ExtensionGroupItem::CodePair(p) => p@,
        }
    }
}

impl vstd::view::View for ExtensionGroup {
    type V = GroupModel;

    open spec fn view(&self) -> GroupModel {
        GroupModel {
            application_name: self.application_name@,
            items: self.items@.map_values(|i: ExtensionGroupItem| i@),
        }
    }
}

/// The views of a list of extension data groups.
pub open spec fn groups_view(s: Seq<ExtensionGroup>) -> Seq<GroupModel> {
    s.map_values(|g: ExtensionGroup| g@)
}

//------------------------------------------------------------------------------
//                                                                       Layer
//------------------------------------------------------------------------------

/// A layer of a drawing.
#[derive(Clone, Debug, PartialEq)]
pub struct Layer {
    pub handle: Handle,
    pub name: String,
    pub color: Color,
    pub line_type_name: String,
    pub is_layer_on: bool,
    pub extension_data_groups: Vec<ExtensionGroup>,
}

/// What a layer holds.
#[verifier::ext_equal]
pub struct LayerModel {
    pub handle: u64,
    pub name: Seq<char>,
    pub color: i16,
    pub line_type_name: Seq<char>,
    pub is_layer_on: bool,
    pub groups: Seq<GroupModel>,
}

impl vstd::view::View for Layer {
    type V = LayerModel;

    open spec fn view(&self) -> LayerModel {
        LayerModel {
            handle: self.handle.0,
            name: self.name@,
            color: self.color@,
            line_type_name: self.line_type_name@,
            is_layer_on: self.is_layer_on,
            groups: groups_view(self.extension_data_groups@),
        }
    }
}

/// The name of the line type that every drawing has and that layers use by
/// default.
pub open spec fn continuous() -> Seq<char> {
    seq!['C', 'O', 'N', 'T', 'I', 'N', 'U', 'O', 'U', 'S']
}

/// A layer as `Layer::default` makes it.
pub open spec fn default_layer() -> LayerModel {
    LayerModel {
        handle: 0,
        name: Seq::empty(),
        color: 7,
        line_type_name: continuous(),
        is_layer_on: true,
        groups: Seq::empty(),
    }
}

impl Default for Layer {
    fn default() -> (l: Layer)
        ensures
            l@ == default_layer(),
    {
        let l = Layer {
            handle: Handle(0),
            name: String::new(),
            color: Color::from_raw_value(7),
            line_type_name: "CONTINUOUS".to_string(),
            is_layer_on: true,
            extension_data_groups: Vec::new(),
        };
        proof {
            reveal_strlit("CONTINUOUS");
            assert(l.line_type_name@ =~= continuous());
            assert(groups_view(l.extension_data_groups@) =~= Seq::<GroupModel>::empty());
        }
        l
    }
}

/// The layer that `Layer::normalize` makes of `l`: an empty line type name
/// becomes `CONTINUOUS`, and the colors "by block" and "by layer", which no
/// layer may have, become color 7.
pub open spec fn normalized_layer(l: LayerModel) -> LayerModel {
    LayerModel {
        line_type_name: if l.line_type_name.len() == 0 {
            continuous()
        } else {
            l.line_type_name
        },
        color: if l.color == 0 || l.color == 256 {
            7
        } else {
            l.color
        },
        ..l
    }
}

/// Replaces an empty text by `default`.
pub(crate) fn default_if_empty(val: &mut String, default: &str)
    ensures
        final(val)@ == (if old(val)@.len() == 0 {
            default@
        } else {
            old(val)@
        }),
{
    if val.as_str().unicode_len() == 0 {
        *val = default.to_string();
    }
}

impl Layer {
    /// Ensure all values are valid.
    pub fn normalize(&mut self)
        ensures
            final(self)@ == normalized_layer(old(self)@),
    {
        default_if_empty(&mut self.line_type_name, "CONTINUOUS");
        proof {
            reveal_strlit("CONTINUOUS");
        }
        let raw = self.color.raw_value();
        if raw == 0 || raw == 256 {
            // BYLAYER and BYBLOCK aren't valid layer colors
            self.color = Color::from_raw_value(7);
        }
        proof {
            assert(self.line_type_name@ == normalized_layer(old(self)@).line_type_name);
        }
    }
}

/// Whether a layer's values are valid: it names a line type, and its color is
/// neither "by block" nor "by layer".
pub open spec fn valid_layer(l: LayerModel) -> bool {
    l.line_type_name.len() > 0 && l.color != 0 && l.color != 256
}

/// Normalizing a layer makes it valid, changes a valid layer in nothing, and so
/// a second normalization changes nothing; name, handle, on state and extension
/// data stay as they were.
pub proof fn layer_normalize_law(l: LayerModel)
    ensures
        valid_layer(normalized_layer(l)),
        valid_layer(l) ==> normalized_layer(l) == l,
        normalized_layer(normalized_layer(l)) == normalized_layer(l),
        normalized_layer(l).name == l.name,
        normalized_layer(l).handle == l.handle,
        normalized_layer(l).is_layer_on == l.is_layer_on,
        normalized_layer(l).groups == l.groups,
{
}

//------------------------------------------------------------------------------
//                                                            positive defaults
//------------------------------------------------------------------------------

/// `v`, or `default` where `v` is zero or below (not a number is kept, as a
/// comparison with zero does not catch it).
pub open spec fn positive_or(v: Real, default: Real) -> Real {
    if at_most_zero(v) {
        default
    } else {
        v
    }
}

/// `v`, or `default` where `v` is not positive.
pub open spec fn positive_or_int(v: int, default: int) -> int {
    if v <= 0 {
        default
    } else {
        v
    }
}

/// Replaces a value that is zero or below by `default`.
pub(crate) fn ensure_positive_or_default(val: &mut Real, default: Real)
    ensures
        *final(val) == positive_or(*old(val), default),
{
    if val.at_most_zero() {
        *val = default;
    }
}

/// Replaces a value that is not positive by `default`.
pub(crate) fn ensure_positive_or_default_i16(val: &mut i16, default: i16)
    ensures
        *final(val) == positive_or_int(*old(val) as int, default as int),
{
    if *val <= 0 {
        *val = default;
    }
}

/// Replaces a value that is not positive by `default`.
pub(crate) fn ensure_positive_or_default_i32(val: &mut i32, default: i32)
    ensures
        *final(val) == positive_or_int(*old(val) as int, default as int),
{
    if *val <= 0 {
        *val = default;
    }
}


//------------------------------------------------------------------------------
//                                                                       Style
//------------------------------------------------------------------------------

/// A text style of a drawing.
#[derive(Clone, Debug, PartialEq)]
pub struct Style {
    pub handle: Handle,
    pub name: String,
    pub text_height: Real,
    pub width_factor: Real,
    pub extension_data_groups: Vec<ExtensionGroup>,
}

/// What a text style holds.
#[verifier::ext_equal]
pub struct StyleModel {
    pub handle: u64,
    pub name: Seq<char>,
    pub text_height: Real,
    pub width_factor: Real,
    pub groups: Seq<GroupModel>,
}

impl vstd::view::View for Style {
    type V = StyleModel;

    open spec fn view(&self) -> StyleModel {
        StyleModel {
            handle: self.handle.0,
            name: self.name@,
            text_height: self.text_height,
            width_factor: self.width_factor,
            groups: groups_view(self.extension_data_groups@),
        }
    }
}

/// A text style as `Style::default` makes it.
pub open spec fn default_style() -> StyleModel {
    StyleModel {
        handle: 0,
        name: Seq::empty(),
        text_height: whole(0),
        width_factor: whole(1),
        groups: Seq::empty(),
    }
}

impl Default for Style {
    fn default() -> (s: Style)
        ensures
            s@ == default_style(),
    {
        let s = Style {
            handle: Handle(0),
            name: String::new(),
            text_height: Real::from_int(0),
            width_factor: Real::from_int(1),
            extension_data_groups: Vec::new(),
        };
        proof {
            assert(groups_view(s.extension_data_groups@) =~= Seq::<GroupModel>::empty());
        }
        s
    }
}

/// The text style that `Style::normalize` makes of `s`: a text height that is zero
/// or below becomes zero and a width factor that is zero or below becomes one.
pub open spec fn normalized_style(s: StyleModel) -> StyleModel {
    StyleModel {
        text_height: positive_or(s.text_height, whole(0)),
        width_factor: positive_or(s.width_factor, whole(1)),
        ..s
    }
}

impl Style {
    /// Ensure all values are valid.
    pub fn normalize(&mut self)
        ensures
            final(self)@ == normalized_style(old(self)@),
    {
        ensure_positive_or_default(&mut self.text_height, Real::from_int(0));
        ensure_positive_or_default(&mut self.width_factor, Real::from_int(1));
    }
}

/// Whether a text style's values are valid: its text height is zero or not at
/// most zero, and its width factor is not at most zero.
pub open spec fn valid_style(s: StyleModel) -> bool {
    (!at_most_zero(s.text_height) || s.text_height == real_zero()) && !at_most_zero(s.width_factor)
}

/// Normalizing a text style makes it valid, changes a valid one in nothing, and
/// so a second normalization changes nothing; name and handle stay.
pub proof fn style_normalize_law(s: StyleModel)
    ensures
        valid_style(normalized_style(s)),
        valid_style(s) ==> normalized_style(s) == s,
        normalized_style(normalized_style(s)) == normalized_style(s),
        normalized_style(s).name == s.name,
        normalized_style(s).handle == s.handle,
{
    lemma_small_wholes();
}

//------------------------------------------------------------------------------
//                                                                        View
//------------------------------------------------------------------------------

/// A named view of a drawing.
#[derive(Clone, Debug, PartialEq)]
pub struct View {
    pub handle: Handle,
    pub name: String,
    pub view_height: Real,
    pub view_width: Real,
    pub lens_length: Real,
    pub extension_data_groups: Vec<ExtensionGroup>,
}

/// What a named view holds.
#[verifier::ext_equal]
pub struct ViewModel {
    pub handle: u64,
    pub name: Seq<char>,
    pub view_height: Real,
    pub view_width: Real,
    pub lens_length: Real,
    pub groups: Seq<GroupModel>,
}

impl vstd::view::View for View {
    type V = ViewModel;

    open spec fn view(&self) -> ViewModel {
        ViewModel {
            handle: self.handle.0,
            name: self.name@,
            view_height: self.view_height,
            view_width: self.view_width,
            lens_length: self.lens_length,
            groups: groups_view(self.extension_data_groups@),
        }
    }
}

/// A named view as `View::default` makes it.
pub open spec fn default_view() -> ViewModel {
    ViewModel {
        handle: 0,
        name: Seq::empty(),
        view_height: whole(1),
        view_width: whole(1),
        lens_length: whole(50),
        groups: Seq::empty(),
    }
}

impl Default for View {
    fn default() -> (v: View)
        ensures
            v@ == default_view(),
    {
        let v = View {
            handle: Handle(0),
            name: String::new(),
            view_height: Real::from_int(1),
            view_width: Real::from_int(1),
            lens_length: Real::from_int(50),
            extension_data_groups: Vec::new(),
        };
        proof {
            assert(groups_view(v.extension_data_groups@) =~= Seq::<GroupModel>::empty());
        }
        v
    }
}

/// The named view that `View::normalize` makes of `v`: a height, width or lens
/// length that is zero or below becomes one.
pub open spec fn normalized_view(v: ViewModel) -> ViewModel {
    ViewModel {
        view_height: positive_or(v.view_height, whole(1)),
        view_width: positive_or(v.view_width, whole(1)),
        lens_length: positive_or(v.lens_length, whole(1)),
        ..v
    }
}

impl View {
    /// Ensure all values are valid.
    pub fn normalize(&mut self)
        ensures
            final(self)@ == normalized_view(old(self)@),
    {
        ensure_positive_or_default(&mut self.view_height, Real::from_int(1));
        ensure_positive_or_default(&mut self.view_width, Real::from_int(1));
        ensure_positive_or_default(&mut self.lens_length, Real::from_int(1));
    }
}

/// Whether a named view's values are valid: height, width and lens length are
/// not at most zero.
pub open spec fn valid_view(v: ViewModel) -> bool {
    !at_most_zero(v.view_height) && !at_most_zero(v.view_width) && !at_most_zero(v.lens_length)
}

/// Normalizing a named view makes it valid, changes a valid one in nothing, and
/// so a second normalization changes nothing; name and handle stay.
pub proof fn view_normalize_law(v: ViewModel)
    ensures
        valid_view(normalized_view(v)),
        valid_view(v) ==> normalized_view(v) == v,
        normalized_view(normalized_view(v)) == normalized_view(v),
        normalized_view(v).name == v.name,
        normalized_view(v).handle == v.handle,
{
    lemma_small_wholes();
}

//------------------------------------------------------------------------------
//                                                                    ViewPort
//------------------------------------------------------------------------------

/// A view port of a drawing.
#[derive(Clone, Debug, PartialEq)]
pub struct ViewPort {
    pub handle: Handle,
    pub name: String,
    pub snap_spacing: Vector,
    pub grid_spacing: Vector,
    pub view_height: Real,
    pub view_port_aspect_ratio: Real,
    pub lens_length: Real,
    pub ucs_icon: i16,
    pub circle_sides: i32,
    pub extension_data_groups: Vec<ExtensionGroup>,
}

/// What a view port holds.
#[verifier::ext_equal]
pub struct ViewPortModel {
    pub handle: u64,
    pub name: Seq<char>,
    pub snap_spacing: Vector,
    pub grid_spacing: Vector,
    pub view_height: Real,
    pub view_port_aspect_ratio: Real,
    pub lens_length: Real,
    pub ucs_icon: i16,
    pub circle_sides: i32,
    pub groups: Seq<GroupModel>,
}

impl vstd::view::View for ViewPort {
    type V = ViewPortModel;

    open spec fn view(&self) -> ViewPortModel {
        ViewPortModel {
            handle: self.handle.0,
            name: self.name@,
            snap_spacing: self.snap_spacing,
            grid_spacing: self.grid_spacing,
            view_height: self.view_height,
            view_port_aspect_ratio: self.view_port_aspect_ratio,
            lens_length: self.lens_length,
            ucs_icon: self.ucs_icon,
            circle_sides: self.circle_sides,
            groups: groups_view(self.extension_data_groups@),
        }
    }
}

/// A view port as `ViewPort::default` makes it.
pub open spec fn default_view_port() -> ViewPortModel {
    ViewPortModel {
        handle: 0,
        name: Seq::empty(),
        snap_spacing: Vector { x: whole(1), y: whole(1), z: whole(1) },
        grid_spacing: Vector { x: whole(1), y: whole(1), z: whole(1) },
        view_height: whole(1),
        view_port_aspect_ratio: whole(1),
        lens_length: whole(50),
        ucs_icon: 3,
        circle_sides: 1000,
        groups: Seq::empty(),
    }
}

impl Default for ViewPort {
    fn default() -> (v: ViewPort)
        ensures
            v@ == default_view_port(),
    {
        let v = ViewPort {
            handle: Handle(0),
            name: String::new(),
            snap_spacing: Vector::new(Real::from_int(1), Real::from_int(1), Real::from_int(1)),
            grid_spacing: Vector::new(Real::from_int(1), Real::from_int(1), Real::from_int(1)),
            view_height: Real::from_int(1),
            view_port_aspect_ratio: Real::from_int(1),
            lens_length: Real::from_int(50),
            ucs_icon: 3,
            circle_sides: 1000,
            extension_data_groups: Vec::new(),
        };
        proof {
            assert(groups_view(v.extension_data_groups@) =~= Seq::<GroupModel>::empty());
        }
        v
    }
}

/// A vector whose components that are zero or below are replaced by one.
pub open spec fn positive_vector(v: Vector) -> Vector {
    Vector {
        x: positive_or(v.x, whole(1)),
        y: positive_or(v.y, whole(1)),
        z: positive_or(v.z, whole(1)),
    }
}

/// The view port that `ViewPort::normalize` makes of `v`: spacing components,
/// height and aspect ratio that are zero or below become one, a lens length
/// that is zero or below becomes 50, a UCS icon setting that is not positive
/// becomes 3 and a circle side count that is not positive becomes 1000.
pub open spec fn normalized_view_port(v: ViewPortModel) -> ViewPortModel {
    ViewPortModel {
        snap_spacing: positive_vector(v.snap_spacing),
        grid_spacing: positive_vector(v.grid_spacing),
        view_height: positive_or(v.view_height, whole(1)),
        view_port_aspect_ratio: positive_or(v.view_port_aspect_ratio, whole(1)),
        lens_length: positive_or(v.lens_length, whole(50)),
        ucs_icon: positive_or_int(v.ucs_icon as int, 3) as i16,
        circle_sides: positive_or_int(v.circle_sides as int, 1000) as i32,
        ..v
    }
}

impl ViewPort {
    /// Ensure all values are valid.
    pub fn normalize(&mut self)
        ensures
            final(self)@ == normalized_view_port(old(self)@),
    {
        ensure_positive_or_default(&mut self.snap_spacing.x, Real::from_int(1));
        ensure_positive_or_default(&mut self.snap_spacing.y, Real::from_int(1));
        ensure_positive_or_default(&mut self.snap_spacing.z, Real::from_int(1));
        ensure_positive_or_default(&mut self.grid_spacing.x, Real::from_int(1));
        ensure_positive_or_default(&mut self.grid_spacing.y, Real::from_int(1));
        ensure_positive_or_default(&mut self.grid_spacing.z, Real::from_int(1));
        ensure_positive_or_default(&mut self.view_height, Real::from_int(1));
        ensure_positive_or_default(&mut self.view_port_aspect_ratio, Real::from_int(1));
        ensure_positive_or_default(&mut self.lens_length, Real::from_int(50));
        ensure_positive_or_default_i16(&mut self.ucs_icon, 3);
        ensure_positive_or_default_i32(&mut self.circle_sides, 1000);
    }
}

/// Whether no component of a vector is at most zero.
pub open spec fn positive_components(v: Vector) -> bool {
    !at_most_zero(v.x) && !at_most_zero(v.y) && !at_most_zero(v.z)
}

/// Whether a view port's values are valid: spacings, height, aspect ratio and
/// lens length are not at most zero, and UCS icon setting and circle side count
/// are positive.
pub open spec fn valid_view_port(v: ViewPortModel) -> bool {
    &&& positive_components(v.snap_spacing)
    &&& positive_components(v.grid_spacing)
    &&& !at_most_zero(v.view_height)
    &&& !at_most_zero(v.view_port_aspect_ratio)
    &&& !at_most_zero(v.lens_length)
    &&& v.ucs_icon > 0
    &&& v.circle_sides > 0
}

/// Normalizing a view port makes it valid, changes a valid one in nothing, and
/// so a second normalization changes nothing; name and handle stay.
pub proof fn view_port_normalize_law(v: ViewPortModel)
    ensures
        valid_view_port(normalized_view_port(v)),
        valid_view_port(v) ==> normalized_view_port(v) == v,
        normalized_view_port(normalized_view_port(v)) == normalized_view_port(v),
        normalized_view_port(v).name == v.name,
        normalized_view_port(v).handle == v.handle,
{
    lemma_small_wholes();
}

/// Whether `new` is `old`, or `default` where `old` is zero or below.
pub open spec fn kept_or(old: Real, new: Real, default: Real) -> bool {
    if at_most_zero(old) {
        new == default
    } else {
        new == old
    }
}

/// Normalizing a layer replaces an empty line type name by `CONTINUOUS` and the
/// colors "by block" (0) and "by layer" (256) by color 7, and changes nothing
/// else.
pub proof fn layer_defaults_law(l: LayerModel)
    ensures
        ({
            let n = normalized_layer(l);
            &&& n.line_type_name == if l.line_type_name.len() == 0 {
                seq!['C', 'O', 'N', 'T', 'I', 'N', 'U', 'O', 'U', 'S']
            } else {
                l.line_type_name
            }
            &&& n.color == if l.color == 0 || l.color == 256 { 7 } else { l.color }
            &&& n.handle == l.handle
            &&& n.name == l.name
            &&& n.is_layer_on == l.is_layer_on
            &&& n.groups == l.groups
        }),
{
}

/// Normalizing a text style replaces a text height that is zero or below by
/// zero and a width factor that is zero or below by one, and changes nothing
/// else.
pub proof fn style_defaults_law(s: StyleModel)
    ensures
        ({
            let n = normalized_style(s);
            &&& kept_or(s.text_height, n.text_height, Real::Finite { negative: false, digits: 0, exponent: 0 })
            &&& kept_or(s.width_factor, n.width_factor, Real::Finite { negative: false, digits: 1, exponent: 0 })
            &&& n.handle == s.handle
            &&& n.name == s.name
            &&& n.groups == s.groups
        }),
{
    lemma_small_wholes();
}

/// Normalizing a named view replaces a height, width or lens length that is
/// zero or below by one, and changes nothing else.
pub proof fn view_defaults_law(v: ViewModel)
    ensures
        ({
            let n = normalized_view(v);
            let one = Real::Finite { negative: false, digits: 1, exponent: 0 };
            &&& kept_or(v.view_height, n.view_height, one)
            &&& kept_or(v.view_width, n.view_width, one)
            &&& kept_or(v.lens_length, n.lens_length, one)
            &&& n.handle == v.handle
            &&& n.name == v.name
            &&& n.groups == v.groups
        }),
{
    lemma_small_wholes();
}

/// Normalizing a view port replaces each spacing component, the view height and
/// the aspect ratio that is zero or below by one, a lens length that is zero or
/// below by 50, a UCS icon setting that is not positive by 3 and a circle side
/// count that is not positive by 1000, and changes nothing else.
pub proof fn view_port_defaults_law(v: ViewPortModel)
    ensures
        ({
            let n = normalized_view_port(v);
            let one = Real::Finite { negative: false, digits: 1, exponent: 0 };
            let fifty = Real::Finite { negative: false, digits: 5, exponent: 1 };
            &&& kept_or(v.snap_spacing.x, n.snap_spacing.x, one)
            &&& kept_or(v.snap_spacing.y, n.snap_spacing.y, one)
            &&& kept_or(v.snap_spacing.z, n.snap_spacing.z, one)
            &&& kept_or(v.grid_spacing.x, n.grid_spacing.x, one)
            &&& kept_or(v.grid_spacing.y, n.grid_spacing.y, one)
            &&& kept_or(v.grid_spacing.z, n.grid_spacing.z, one)
            &&& kept_or(v.view_height, n.view_height, one)
            &&& kept_or(v.view_port_aspect_ratio, n.view_port_aspect_ratio, one)
            &&& kept_or(v.lens_length, n.lens_length, fifty)
            &&& n.ucs_icon == if v.ucs_icon <= 0 { 3 } else { v.ucs_icon }
            &&& n.circle_sides == if v.circle_sides <= 0 { 1000 } else { v.circle_sides }
            &&& n.handle == v.handle
            &&& n.name == v.name
            &&& n.groups == v.groups
        }),
{
    lemma_small_wholes();
}

//------------------------------------------------------------------------------
//                                                       named table items
//------------------------------------------------------------------------------

/// A user coordinate system of a drawing.
#[derive(Clone, Debug, PartialEq)]
pub struct Ucs {
    pub handle: Handle,
    pub name: String,
    pub extension_data_groups: Vec<ExtensionGroup>,
}

/// A registered application of a drawing.
#[derive(Clone, Debug, PartialEq)]
pub struct AppId {
    pub handle: Handle,
    pub name: String,
    pub extension_data_groups: Vec<ExtensionGroup>,
}

/// A block record of a drawing.
#[derive(Clone, Debug, PartialEq)]
pub struct BlockRecord {
    pub handle: Handle,
    pub name: String,
    pub extension_data_groups: Vec<ExtensionGroup>,
}

/// What a table item that has only a handle and a name holds.
#[verifier::ext_equal]
pub struct NamedModel {
    pub handle: u64,
    pub name: Seq<char>,
    pub groups: Seq<GroupModel>,
}

/// A table item that has only a handle and a name, as its default.
pub open spec fn named_default() -> NamedModel {
    NamedModel { handle: 0, name: Seq::empty(), groups: Seq::empty() }
}

impl vstd::view::View for Ucs {
    type V = NamedModel;

    open spec fn view(&self) -> NamedModel {
        NamedModel {
            handle: self.handle.0,
            name: self.name@,
            groups: groups_view(self.extension_data_groups@),
        }
    }
}

impl vstd::view::View for AppId {
    type V = NamedModel;

    open spec fn view(&self) -> NamedModel {
        NamedModel {
            handle: self.handle.0,
            name: self.name@,
            groups: groups_view(self.extension_data_groups@),
        }
    }
}

impl vstd::view::View for BlockRecord {
    type V = NamedModel;

    open spec fn view(&self) -> NamedModel {
        NamedModel {
            handle: self.handle.0,
            name: self.name@,
            groups: groups_view(self.extension_data_groups@),
        }
    }
}

impl Default for Ucs {
    fn default() -> (u: Ucs)
        ensures
            u@ == named_default(),
    {
        let u = Ucs { handle: Handle(0), name: String::new(), extension_data_groups: Vec::new() };
        proof {
            assert(groups_view(u.extension_data_groups@) =~= Seq::<GroupModel>::empty());
        }
        u
    }
}

impl Default for AppId {
    fn default() -> (a: AppId)
        ensures
            a@ == named_default(),
    {
        let a = AppId { handle: Handle(0), name: String::new(), extension_data_groups: Vec::new() };
        proof {
            assert(groups_view(a.extension_data_groups@) =~= Seq::<GroupModel>::empty());
        }
        a
    }
}

impl Default for BlockRecord {
    fn default() -> (b: BlockRecord)
        ensures
            b@ == named_default(),
    {
        let b = BlockRecord { handle: Handle(0), name: String::new(), extension_data_groups: Vec::new() };
        proof {
            assert(groups_view(b.extension_data_groups@) =~= Seq::<GroupModel>::empty());
        }
        b
    }
}

} // verus!
