//! A drawing's tables: adding items with handles, and normalizing.

use vstd::prelude::*;
use vstd::view::View as _;

use crate::enums::{default_version, AcadVersion};
use crate::handle::{next_value, Handle};
use crate::names::{missing_sorted, names_view, sorted_names};
use crate::text::{chars_of, string_of};
use crate::linetype::{default_line_type, LineType, LineTypeModel};
use crate::tables::{
    continuous, default_layer, default_style, default_view_port, normalized_layer,
    named_default, normalized_style, normalized_view, normalized_view_port, AppId, BlockRecord, Layer, LayerModel,
    NamedModel, Style, StyleModel, Ucs, View, ViewModel, ViewPort, ViewPortModel,
};

verus! {

/// The header variables of a drawing that the tables depend on.
#[derive(Clone, Debug)]
pub struct Header {
    pub version: AcadVersion,
    pub current_layer: String,
    pub ucs_name: String,
}

/// A drawing: its header and its tables.
#[derive(Clone, Debug)]
pub struct Drawing {
    pub header: Header,
    app_ids: Vec<AppId>,
    block_records: Vec<BlockRecord>,
    layers: Vec<Layer>,
    line_types: Vec<LineType>,
    styles: Vec<Style>,
    ucss: Vec<Ucs>,
    views: Vec<View>,
    view_ports: Vec<ViewPort>,
    last_handle: Handle,
}

/// What a drawing holds.
#[verifier::ext_equal]
pub struct DrawingModel {
    pub version: AcadVersion,
    pub current_layer: Seq<char>,
    pub ucs_name: Seq<char>,
    pub app_ids: Seq<NamedModel>,
    pub block_records: Seq<NamedModel>,
    pub layers: Seq<LayerModel>,
    pub line_types: Seq<LineTypeModel>,
    pub styles: Seq<StyleModel>,
    pub ucss: Seq<NamedModel>,
    pub views: Seq<ViewModel>,
    pub view_ports: Seq<ViewPortModel>,
    /// The handle last handed out; the next one follows it.
    pub last_handle: u64,
}

impl vstd::view::View for Drawing {
    type V = DrawingModel;

    closed spec fn view(&self) -> DrawingModel {
        DrawingModel {
            version: self.header.version,
            current_layer: self.header.current_layer@,
            ucs_name: self.header.ucs_name@,
            app_ids: self.app_ids@.map_values(|a: AppId| a@),
            block_records: self.block_records@.map_values(|b: BlockRecord| b@),
            layers: self.layers@.map_values(|l: Layer| l@),
            line_types: self.line_types@.map_values(|l: LineType| l@),
            styles: self.styles@.map_values(|s: Style| s@),
            ucss: self.ucss@.map_values(|u: Ucs| u@),
            views: self.views@.map_values(|v: View| v@),
            view_ports: self.view_ports@.map_values(|v: ViewPort| v@),
            last_handle: self.last_handle.0,
        }
    }
}

/// The handle that an item added to a drawing gets: its own, unless that is
/// empty, in which case the handle after the last one handed out.
pub open spec fn assigned_handle(own: u64, last: u64) -> u64 {
    if own == 0 {
        next_value(last)
    } else {
        own
    }
}

/// The last handle handed out after adding an item with handle `own`.
pub open spec fn last_after(own: u64, last: u64) -> u64 {
    if own == 0 {
        next_value(last)
    } else {
        last
    }
}

/// The last handle handed out, counting the reserved range as handed out.
pub open spec fn handle_floor(last: u64) -> int {
    if last < 10 {
        10
    } else {
        last as int
    }
}

/// Whether `n` more handles can be handed out.
pub open spec fn has_handle_room(d: DrawingModel, n: int) -> bool {
    handle_floor(d.last_handle) + n <= u64::MAX
}

/// A drawing with the given header and no table items.
pub open spec fn empty_drawing(
    version: AcadVersion,
    current_layer: Seq<char>,
    ucs_name: Seq<char>,
    last_handle: u64,
) -> DrawingModel {
    DrawingModel {
        version,
        current_layer,
        ucs_name,
        app_ids: Seq::empty(),
        block_records: Seq::empty(),
        layers: Seq::empty(),
        line_types: Seq::empty(),
        styles: Seq::empty(),
        ucss: Seq::empty(),
        views: Seq::empty(),
        view_ports: Seq::empty(),
        last_handle,
    }
}

/// The text `BYBLOCK`.
pub open spec fn byblock() -> Seq<char> {
    seq!['B', 'Y', 'B', 'L', 'O', 'C', 'K']
}

/// The text `BYLAYER`.
pub open spec fn bylayer() -> Seq<char> {
    seq!['B', 'Y', 'L', 'A', 'Y', 'E', 'R']
}

/// The text `ANNOTATIVE`.
pub open spec fn annotative() -> Seq<char> {
    seq!['A', 'N', 'N', 'O', 'T', 'A', 'T', 'I', 'V', 'E']
}

/// The text `STANDARD`.
pub open spec fn standard_style() -> Seq<char> {
    seq!['S', 'T', 'A', 'N', 'D', 'A', 'R', 'D']
}

/// The text `*ACTIVE`.
pub open spec fn active() -> Seq<char> {
    seq!['*', 'A', 'C', 'T', 'I', 'V', 'E']
}

/// The text `ACAD`.
pub open spec fn acad() -> Seq<char> {
    seq!['A', 'C', 'A', 'D']
}

/// The text `ACADANNOTATIVE`.
pub open spec fn acad_annotative() -> Seq<char> {
    seq!['A', 'C', 'A', 'D', 'A', 'N', 'N', 'O', 'T', 'A', 'T', 'I', 'V', 'E']
}

/// The text `ACAD_MLEADERVER`.
pub open spec fn acad_mleader_ver() -> Seq<char> {
    seq!['A', 'C', 'A', 'D', '_', 'M', 'L', 'E', 'A', 'D', 'E', 'R', 'V', 'E', 'R']
}

/// The text `ACAD_NAV_VCDISPLAY`.
pub open spec fn acad_nav_vc_display() -> Seq<char> {
    seq!['A', 'C', 'A', 'D', '_', 'N', 'A', 'V', '_', 'V', 'C', 'D', 'I', 'S', 'P', 'L', 'A', 'Y']
}

/// The text `*MODEL_SPACE`.
pub open spec fn model_space() -> Seq<char> {
    seq!['*', 'M', 'O', 'D', 'E', 'L', '_', 'S', 'P', 'A', 'C', 'E']
}

/// The text `*PAPER_SPACE`.
pub open spec fn paper_space() -> Seq<char> {
    seq!['*', 'P', 'A', 'P', 'E', 'R', '_', 'S', 'P', 'A', 'C', 'E']
}

/// The handle reached after handing out `n` handles following `last`.
pub open spec fn handle_after(last: u64, n: nat) -> u64
    decreases n,
{
    if n == 0 {
        last
    } else {
        next_value(handle_after(last, (n - 1) as nat))
    }
}

/// The texts of `cands` that `existing` lacks, without repeats, in increasing
/// order.
pub open spec fn missing(cands: Seq<Seq<char>>, existing: Seq<Seq<char>>) -> Seq<Seq<char>> {
    sorted_names(cands.to_set().difference(existing.to_set()))
}

/// The names of some items.
pub open spec fn layer_names(s: Seq<LayerModel>) -> Seq<Seq<char>> {
    s.map_values(|x: LayerModel| x.name)
}

/// Default items with the given names, handed the handles after `last` in turn.
pub open spec fn new_layers(names: Seq<Seq<char>>, last: u64) -> Seq<LayerModel> {
    Seq::new(
        names.len(),
        |k: int| LayerModel { handle: handle_after(last, (k + 1) as nat), name: names[k], ..default_layer() },
    )
}

/// The names of some items.
pub open spec fn line_type_names(s: Seq<LineTypeModel>) -> Seq<Seq<char>> {
    s.map_values(|x: LineTypeModel| x.name)
}

/// Default items with the given names, handed the handles after `last` in turn.
pub open spec fn new_line_types(names: Seq<Seq<char>>, last: u64) -> Seq<LineTypeModel> {
    Seq::new(
        names.len(),
        |k: int| LineTypeModel { handle: handle_after(last, (k + 1) as nat), name: names[k], ..default_line_type() },
    )
}

/// The names of some items.
pub open spec fn style_names(s: Seq<StyleModel>) -> Seq<Seq<char>> {
    s.map_values(|x: StyleModel| x.name)
}

/// Default items with the given names, handed the handles after `last` in turn.
pub open spec fn new_styles(names: Seq<Seq<char>>, last: u64) -> Seq<StyleModel> {
    Seq::new(
        names.len(),
        |k: int| StyleModel { handle: handle_after(last, (k + 1) as nat), name: names[k], ..default_style() },
    )
}

/// The names of some items.
pub open spec fn view_port_names(s: Seq<ViewPortModel>) -> Seq<Seq<char>> {
    s.map_values(|x: ViewPortModel| x.name)
}

/// Default items with the given names, handed the handles after `last` in turn.
pub open spec fn new_view_ports(names: Seq<Seq<char>>, last: u64) -> Seq<ViewPortModel> {
    Seq::new(
        names.len(),
        |k: int| ViewPortModel { handle: handle_after(last, (k + 1) as nat), name: names[k], ..default_view_port() },
    )
}

/// The names of some items.
pub open spec fn ucs_names(s: Seq<NamedModel>) -> Seq<Seq<char>> {
    s.map_values(|x: NamedModel| x.name)
}

/// Default items with the given names, handed the handles after `last` in turn.
pub open spec fn new_ucss(names: Seq<Seq<char>>, last: u64) -> Seq<NamedModel> {
    Seq::new(
        names.len(),
        |k: int| NamedModel { handle: handle_after(last, (k + 1) as nat), name: names[k], ..named_default() },
    )
}

/// The names of some items.
pub open spec fn app_id_names(s: Seq<NamedModel>) -> Seq<Seq<char>> {
    s.map_values(|x: NamedModel| x.name)
}

/// Default items with the given names, handed the handles after `last` in turn.
pub open spec fn new_app_ids(names: Seq<Seq<char>>, last: u64) -> Seq<NamedModel> {
    Seq::new(
        names.len(),
        |k: int| NamedModel { handle: handle_after(last, (k + 1) as nat), name: names[k], ..named_default() },
    )
}

/// The names of some items.
pub open spec fn block_record_names(s: Seq<NamedModel>) -> Seq<Seq<char>> {
    s.map_values(|x: NamedModel| x.name)
}

/// Default items with the given names, handed the handles after `last` in turn.
pub open spec fn new_block_records(names: Seq<Seq<char>>, last: u64) -> Seq<NamedModel> {
    Seq::new(
        names.len(),
        |k: int| NamedModel { handle: handle_after(last, (k + 1) as nat), name: names[k], ..named_default() },
    )
}

/// The layers that every drawing has: `0`, and the current layer where one is named.
pub open spec fn layer_candidates(current: Seq<char>) -> Seq<Seq<char>> {
    if current.len() > 0 {
        seq![seq!['0'], current]
    } else {
        seq![seq!['0']]
    }
}

/// The line types that every drawing has: `BYBLOCK`, `BYLAYER`, `CONTINUOUS`, and
/// those its layers use.
pub open spec fn line_type_candidates(layers: Seq<LayerModel>) -> Seq<Seq<char>> {
    seq![byblock(), bylayer(), continuous()] + layers.map_values(|l: LayerModel| l.line_type_name)
}

/// The text styles that every drawing has.
pub open spec fn style_candidates() -> Seq<Seq<char>> {
    seq![annotative(), standard_style()]
}

/// The view ports that every drawing has.
pub open spec fn view_port_candidates() -> Seq<Seq<char>> {
    seq![active()]
}

/// The user coordinate systems that every drawing has: the current one, where
/// one is named.
pub open spec fn ucs_candidates(name: Seq<char>) -> Seq<Seq<char>> {
    if name.len() > 0 {
        seq![name]
    } else {
        Seq::empty()
    }
}

/// The registered applications that every drawing has.
pub open spec fn app_id_candidates() -> Seq<Seq<char>> {
    seq![acad(), acad_annotative(), acad_mleader_ver(), acad_nav_vc_display()]
}

/// The block records that every drawing has.
pub open spec fn block_record_candidates() -> Seq<Seq<char>> {
    seq![model_space(), paper_space()]
}

/// The drawing that `Drawing::normalize` makes of `d`: every layer, text
/// style, view and view port normalized, and then, table by table (layers, line
/// types, text styles, view ports, user coordinate systems, registered
/// applications, block records), default items added, with new handles, for the
/// names that every drawing has and `d` lacks, in increasing order of name.
pub open spec fn normalized_drawing(d: DrawingModel) -> DrawingModel {
    let layers1 = d.layers.map_values(|l: LayerModel| normalized_layer(l));
    let ln = missing(layer_candidates(d.current_layer), layer_names(layers1));
    let layers = layers1 + new_layers(ln, d.last_handle);
    let h1 = handle_after(d.last_handle, ln.len());
    let tn = missing(line_type_candidates(layers), line_type_names(d.line_types));
    let h2 = handle_after(h1, tn.len());
    let styles1 = d.styles.map_values(|s: StyleModel| normalized_style(s));
    let sn = missing(style_candidates(), style_names(styles1));
    let h3 = handle_after(h2, sn.len());
    let ports1 = d.view_ports.map_values(|v: ViewPortModel| normalized_view_port(v));
    let pn = missing(view_port_candidates(), view_port_names(ports1));
    let h4 = handle_after(h3, pn.len());
    let un = missing(ucs_candidates(d.ucs_name), ucs_names(d.ucss));
    let h5 = handle_after(h4, un.len());
    let an = missing(app_id_candidates(), app_id_names(d.app_ids));
    let h6 = handle_after(h5, an.len());
    let bn = missing(block_record_candidates(), block_record_names(d.block_records));
    let h7 = handle_after(h6, bn.len());
    DrawingModel {
        layers,
        line_types: d.line_types + new_line_types(tn, h1),
        styles: styles1 + new_styles(sn, h2),
        views: d.views.map_values(|v: ViewModel| normalized_view(v)),
        view_ports: ports1 + new_view_ports(pn, h3),
        ucss: d.ucss + new_ucss(un, h4),
        app_ids: d.app_ids + new_app_ids(an, h5),
        block_records: d.block_records + new_block_records(bn, h6),
        last_handle: h7,
        ..d
    }
}

/// The number of items that a new drawing has besides its table items, in the
/// parts of a drawing that this library does not hold (its default dimension
/// styles, and the blocks of model space and paper space); their handles follow
/// those of the table items.
pub const OTHER_DEFAULT_ITEMS: u64 = 6;

/// The number of handles that normalizing `d` may hand out at most.
pub open spec fn normalize_handle_need(d: DrawingModel) -> int {
    17 + d.layers.len() as int
}

/// Handing out `n` handles raises the floor by exactly `n`.
pub proof fn lemma_handle_floor_after(last: u64, n: nat)
    requires
        handle_floor(last) + n <= u64::MAX,
    ensures
        handle_floor(handle_after(last, n)) == handle_floor(last) + n,
    decreases n,
{
    if n > 0 {
        lemma_handle_floor_after(last, (n - 1) as nat);
        lemma_handle_floor_next(handle_after(last, (n - 1) as nat));
    }
}

/// Handing out a handle raises the floor by exactly one.
pub proof fn lemma_handle_floor_next(last: u64)
    requires
        handle_floor(last) + 1 <= u64::MAX,
    ensures
        handle_floor(next_value(last)) == handle_floor(last) + 1,
        next_value(last) == handle_floor(last) + 1,
{
}

impl Drawing {
    /// A drawing with the default header (the latest version, current layer `0`,
    /// no UCS) and no table items; no handle has been handed out.
    pub fn empty() -> (d: Drawing)
        ensures
            d@ == empty_drawing(default_version(), seq!['0'], Seq::empty(), 0),
    {
        let d = Drawing {
            header: Header {
                version: AcadVersion::R2018,
                current_layer: "0".to_string(),
                ucs_name: String::new(),
            },
            app_ids: Vec::new(),
            block_records: Vec::new(),
            layers: Vec::new(),
            line_types: Vec::new(),
            styles: Vec::new(),
            ucss: Vec::new(),
            views: Vec::new(),
            view_ports: Vec::new(),
            last_handle: Handle(0),
        };
        proof {
            reveal_strlit("0");
            assert(d@ =~= empty_drawing(default_version(), seq!['0'], Seq::empty(), 0));
        }
        d
    }

    /// A new drawing: the default header (the latest version, current layer `0`,
    /// no UCS), normalized, so that it has every item that a drawing must have;
    /// the default items of the parts that this library does not hold then take
    /// the next `OTHER_DEFAULT_ITEMS` handles.
    pub fn new() -> (d: Drawing)
        ensures
            d@ == ({
                let n = normalized_drawing(empty_drawing(default_version(), seq!['0'], Seq::empty(), 0));
                DrawingModel { last_handle: handle_after(n.last_handle, OTHER_DEFAULT_ITEMS as nat), ..n }
            }),
    {
        let mut d = Drawing::empty();
        d.normalize();
        d.skip_handles(OTHER_DEFAULT_ITEMS);
        d
    }

    /// Hands out `n` handles to items that this library does not hold.
    fn skip_handles(&mut self, n: u64)
        requires
            has_handle_room(old(self)@, n as int),
        ensures
            final(self)@ == (DrawingModel { last_handle: handle_after(old(self)@.last_handle, n as nat), ..old(self)@ }),
    {
        let mut i: u64 = 0;
        while i < n
            invariant
                i <= n,
                has_handle_room(old(self)@, n as int),
                self@ == (DrawingModel { last_handle: handle_after(old(self)@.last_handle, i as nat), ..old(self)@ }),
            decreases n - i,
        {
            proof {
                lemma_handle_floor_after(old(self)@.last_handle, i as nat);
            }
            self.next_handle();
            i = i + 1;
        }
    }

    /// Removes every table item; the header stays.
    pub fn clear(&mut self)
        ensures
            final(self)@ == empty_drawing(
                old(self)@.version,
                old(self)@.current_layer,
                old(self)@.ucs_name,
                old(self)@.last_handle,
            ),
    {
        self.app_ids = Vec::new();
        self.block_records = Vec::new();
        self.layers = Vec::new();
        self.line_types = Vec::new();
        self.styles = Vec::new();
        self.ucss = Vec::new();
        self.views = Vec::new();
        self.view_ports = Vec::new();
        proof {
            assert(self@ =~= empty_drawing(
                old(self)@.version,
                old(self)@.current_layer,
                old(self)@.ucs_name,
                old(self)@.last_handle,
            ));
        }
    }

    /// The version the drawing is written in.
    pub fn version(&self) -> (v: AcadVersion)
        ensures
            v == self@.version,
    {
        self.header.version
    }

    /// Sets the version the drawing is written in.
    pub fn set_version(&mut self, version: AcadVersion)
        ensures
            final(self)@ == (DrawingModel { version, ..old(self)@ }),
    {
        self.header.version = version;
        proof {
            assert(self@ =~= (DrawingModel { version, ..old(self)@ }));
        }
    }

    /// Whether `n` more handles can be handed out, so that `n` items without a
    /// handle can be added (or a normalization that needs `n` handles done).
    pub fn has_room_for(&self, n: u64) -> (b: bool)
        ensures
            b == has_handle_room(self@, n as int),
    {
        let floor: u64 = if self.last_handle.0 < 10 {
            10
        } else {
            self.last_handle.0
        };
        floor <= u64::MAX - n
    }

    /// Hands out the next handle.
    fn next_handle(&mut self) -> (h: Handle)
        requires
            has_handle_room(old(self)@, 1),
        ensures
            h.0 == next_value(old(self)@.last_handle),
            final(self)@ == (DrawingModel { last_handle: h.0, ..old(self)@ }),
    {
        let h = self.last_handle.next_handle_value();
        self.last_handle = h;
        proof {
            assert(self@ =~= (DrawingModel { last_handle: h.0, ..old(self)@ }));
        }
        h
    }

    /// The layers, in order.
    pub fn layers(&self) -> (r: &[Layer])
        ensures
            r@.map_values(|l: Layer| l@) == self@.layers,
    {
        self.layers.as_slice()
    }

    /// The line types, in order.
    pub fn line_types(&self) -> (r: &[LineType])
        ensures
            r@.map_values(|l: LineType| l@) == self@.line_types,
    {
        self.line_types.as_slice()
    }

    /// The text styles, in order.
    pub fn styles(&self) -> (r: &[Style])
        ensures
            r@.map_values(|s: Style| s@) == self@.styles,
    {
        self.styles.as_slice()
    }

    /// The named views, in order.
    pub fn views(&self) -> (r: &[View])
        ensures
            r@.map_values(|v: View| v@) == self@.views,
    {
        self.views.as_slice()
    }

    /// The view ports, in order.
    pub fn view_ports(&self) -> (r: &[ViewPort])
        ensures
            r@.map_values(|v: ViewPort| v@) == self@.view_ports,
    {
        self.view_ports.as_slice()
    }

    /// The user coordinate systems, in order.
    pub fn ucss(&self) -> (r: &[Ucs])
        ensures
            r@.map_values(|u: Ucs| u@) == self@.ucss,
    {
        self.ucss.as_slice()
    }

    /// The registered applications, in order.
    pub fn app_ids(&self) -> (r: &[AppId])
        ensures
            r@.map_values(|a: AppId| a@) == self@.app_ids,
    {
        self.app_ids.as_slice()
    }

    /// The block records, in order.
    pub fn block_records(&self) -> (r: &[BlockRecord])
        ensures
            r@.map_values(|b: BlockRecord| b@) == self@.block_records,
    {
        self.block_records.as_slice()
    }

    /// Adds a layer, giving it the next handle if it has none.
    pub fn add_layer(&mut self, layer: Layer) -> (h: Handle)
        requires
            layer.handle.0 == 0 ==> has_handle_room(old(self)@, 1),
        ensures
            h.0 == assigned_handle(layer.handle.0, old(self)@.last_handle),
            final(self)@ == (DrawingModel {
                layers: old(self)@.layers.push(LayerModel { handle: h.0, ..layer@ }),
                last_handle: last_after(layer.handle.0, old(self)@.last_handle),
                ..old(self)@
            }),
    {
        let ghost orig = layer@;
        let mut layer = layer;
        if layer.handle.is_empty() {
            layer.handle = self.next_handle();
        }
        let h = layer.handle;
        self.layers.push(layer);
        proof {
            assert(self@ =~= (DrawingModel {
                layers: old(self)@.layers.push(LayerModel { handle: h.0, ..orig }),
                last_handle: last_after(orig.handle, old(self)@.last_handle),
                ..old(self)@
            }));
        }
        h
    }

    /// Adds a line type, giving it the next handle if it has none.
    pub fn add_line_type(&mut self, item: LineType) -> (h: Handle)
        requires
            item.handle.0 == 0 ==> has_handle_room(old(self)@, 1),
        ensures
            h.0 == assigned_handle(item.handle.0, old(self)@.last_handle),
            final(self)@ == (DrawingModel {
                line_types: old(self)@.line_types.push(LineTypeModel { handle: h.0, ..item@ }),
                last_handle: last_after(item.handle.0, old(self)@.last_handle),
                ..old(self)@
            }),
    {
        let ghost orig = item@;
        let mut item = item;
        if item.handle.is_empty() {
            item.handle = self.next_handle();
        }
        let h = item.handle;
        self.line_types.push(item);
        proof {
            assert(self@ =~= (DrawingModel {
                line_types: old(self)@.line_types.push(LineTypeModel { handle: h.0, ..orig }),
                last_handle: last_after(orig.handle, old(self)@.last_handle),
                ..old(self)@
            }));
        }
        h
    }

    /// Adds a text style, giving it the next handle if it has none.
    pub fn add_style(&mut self, item: Style) -> (h: Handle)
        requires
            item.handle.0 == 0 ==> has_handle_room(old(self)@, 1),
        ensures
            h.0 == assigned_handle(item.handle.0, old(self)@.last_handle),
            final(self)@ == (DrawingModel {
                styles: old(self)@.styles.push(StyleModel { handle: h.0, ..item@ }),
                last_handle: last_after(item.handle.0, old(self)@.last_handle),
                ..old(self)@
            }),
    {
        let ghost orig = item@;
        let mut item = item;
        if item.handle.is_empty() {
            item.handle = self.next_handle();
        }
        let h = item.handle;
        self.styles.push(item);
        proof {
            assert(self@ =~= (DrawingModel {
                styles: old(self)@.styles.push(StyleModel { handle: h.0, ..orig }),
                last_handle: last_after(orig.handle, old(self)@.last_handle),
                ..old(self)@
            }));
        }
        h
    }

    /// Adds a named view, giving it the next handle if it has none.
    pub fn add_view(&mut self, item: View) -> (h: Handle)
        requires
            item.handle.0 == 0 ==> has_handle_room(old(self)@, 1),
        ensures
            h.0 == assigned_handle(item.handle.0, old(self)@.last_handle),
            final(self)@ == (DrawingModel {
                views: old(self)@.views.push(ViewModel { handle: h.0, ..item@ }),
                last_handle: last_after(item.handle.0, old(self)@.last_handle),
                ..old(self)@
            }),
    {
        let ghost orig = item@;
        let mut item = item;
        if item.handle.is_empty() {
            item.handle = self.next_handle();
        }
        let h = item.handle;
        self.views.push(item);
        proof {
            assert(self@ =~= (DrawingModel {
                views: old(self)@.views.push(ViewModel { handle: h.0, ..orig }),
                last_handle: last_after(orig.handle, old(self)@.last_handle),
                ..old(self)@
            }));
        }
        h
    }

    /// Adds a view port, giving it the next handle if it has none.
    pub fn add_view_port(&mut self, item: ViewPort) -> (h: Handle)
        requires
            item.handle.0 == 0 ==> has_handle_room(old(self)@, 1),
        ensures
            h.0 == assigned_handle(item.handle.0, old(self)@.last_handle),
            final(self)@ == (DrawingModel {
                view_ports: old(self)@.view_ports.push(ViewPortModel { handle: h.0, ..item@ }),
                last_handle: last_after(item.handle.0, old(self)@.last_handle),
                ..old(self)@
            }),
    {
        let ghost orig = item@;
        let mut item = item;
        if item.handle.is_empty() {
            item.handle = self.next_handle();
        }
        let h = item.handle;
        self.view_ports.push(item);
        proof {
            assert(self@ =~= (DrawingModel {
                view_ports: old(self)@.view_ports.push(ViewPortModel { handle: h.0, ..orig }),
                last_handle: last_after(orig.handle, old(self)@.last_handle),
                ..old(self)@
            }));
        }
        h
    }

    /// Adds a user coordinate system, giving it the next handle if it has none.
    pub fn add_ucs(&mut self, item: Ucs) -> (h: Handle)
        requires
            item.handle.0 == 0 ==> has_handle_room(old(self)@, 1),
        ensures
            h.0 == assigned_handle(item.handle.0, old(self)@.last_handle),
            final(self)@ == (DrawingModel {
                ucss: old(self)@.ucss.push(NamedModel { handle: h.0, ..item@ }),
                last_handle: last_after(item.handle.0, old(self)@.last_handle),
                ..old(self)@
            }),
    {
        let ghost orig = item@;
        let mut item = item;
        if item.handle.is_empty() {
            item.handle = self.next_handle();
        }
        let h = item.handle;
        self.ucss.push(item);
        proof {
            assert(self@ =~= (DrawingModel {
                ucss: old(self)@.ucss.push(NamedModel { handle: h.0, ..orig }),
                last_handle: last_after(orig.handle, old(self)@.last_handle),
                ..old(self)@
            }));
        }
        h
    }

    /// Adds a registered application, giving it the next handle if it has none.
    pub fn add_app_id(&mut self, item: AppId) -> (h: Handle)
        requires
            item.handle.0 == 0 ==> has_handle_room(old(self)@, 1),
        ensures
            h.0 == assigned_handle(item.handle.0, old(self)@.last_handle),
            final(self)@ == (DrawingModel {
                app_ids: old(self)@.app_ids.push(NamedModel { handle: h.0, ..item@ }),
                last_handle: last_after(item.handle.0, old(self)@.last_handle),
                ..old(self)@
            }),
    {
        let ghost orig = item@;
        let mut item = item;
        if item.handle.is_empty() {
            item.handle = self.next_handle();
        }
        let h = item.handle;
        self.app_ids.push(item);
        proof {
            assert(self@ =~= (DrawingModel {
                app_ids: old(self)@.app_ids.push(NamedModel { handle: h.0, ..orig }),
                last_handle: last_after(orig.handle, old(self)@.last_handle),
                ..old(self)@
            }));
        }
        h
    }

    /// Adds a block record, giving it the next handle if it has none.
    pub fn add_block_record(&mut self, item: BlockRecord) -> (h: Handle)
        requires
            item.handle.0 == 0 ==> has_handle_room(old(self)@, 1),
        ensures
            h.0 == assigned_handle(item.handle.0, old(self)@.last_handle),
            final(self)@ == (DrawingModel {
                block_records: old(self)@.block_records.push(NamedModel { handle: h.0, ..item@ }),
                last_handle: last_after(item.handle.0, old(self)@.last_handle),
                ..old(self)@
            }),
    {
        let ghost orig = item@;
        let mut item = item;
        if item.handle.is_empty() {
            item.handle = self.next_handle();
        }
        let h = item.handle;
        self.block_records.push(item);
        proof {
            assert(self@ =~= (DrawingModel {
                block_records: old(self)@.block_records.push(NamedModel { handle: h.0, ..orig }),
                last_handle: last_after(orig.handle, old(self)@.last_handle),
                ..old(self)@
            }));
        }
        h
    }

    /// The names of the layers, in order.
    fn layer_name_list(&self) -> (r: Vec<Vec<char>>)
        ensures
            names_view(r@) == layer_names(self@.layers),
    {
        let mut r: Vec<Vec<char>> = Vec::new();
        let mut i: usize = 0;
        while i < self.layers.len()
            invariant
                i <= self.layers@.len(),
                names_view(r@) == layer_names(self@.layers).take(i as int),
            decreases self.layers.len() - i,
        {
            proof {
                assert(self@.layers[i as int] == self.layers@[i as int]@);
            }
            let name = chars_of(self.layers[i].name.as_str());
            let ghost rv = names_view(r@);
            let ghost nv = name@;
            r.push(name);
            proof {
                assert(names_view(r@) =~= rv.push(nv));
                assert(layer_names(self@.layers).take(i + 1) =~= layer_names(self@.layers).take(i as int).push(self@.layers[i as int].name));
            }
            i = i + 1;
        }
        proof {
            assert(layer_names(self@.layers).take(i as int) =~= layer_names(self@.layers));
        }
        r
    }

    /// Adds default layers with the given names, in order.
    fn add_missing_layers(&mut self, names: &Vec<Vec<char>>)
        requires
            has_handle_room(old(self)@, names@.len() as int),
        ensures
            final(self)@ == (DrawingModel {
                layers: old(self)@.layers + new_layers(names_view(names@), old(self)@.last_handle),
                last_handle: handle_after(old(self)@.last_handle, names@.len() as nat),
                ..old(self)@
            }),
    {
        let mut k: usize = 0;
        proof {
            assert(old(self)@.layers + new_layers(names_view(names@).take(0), old(self)@.last_handle) =~= old(self)@.layers);
        }
        while k < names.len()
            invariant
                k <= names@.len(),
                self@ == (DrawingModel {
                    layers: old(self)@.layers + new_layers(names_view(names@).take(k as int), old(self)@.last_handle),
                    last_handle: handle_after(old(self)@.last_handle, k as nat),
                    ..old(self)@
                }),
                handle_floor(self@.last_handle) + (names@.len() - k) <= u64::MAX,
            decreases names.len() - k,
        {
            let mut item = Layer::default();
            item.name = string_of(names[k].as_slice());
            let ghost before = self@;
            proof {
                lemma_handle_floor_next(self@.last_handle);
            }
            self.add_layer(item);
            k = k + 1;
            proof {
                assert(names_view(names@)[k - 1] == names@[k - 1]@);
                assert(old(self)@.layers + new_layers(names_view(names@).take(k as int), old(self)@.last_handle)
                    =~= before.layers.push(self@.layers.last()));
            }
        }
        proof {
            assert(names_view(names@).take(k as int) =~= names_view(names@));
        }
    }

    /// The names of the line_types, in order.
    fn line_type_name_list(&self) -> (r: Vec<Vec<char>>)
        ensures
            names_view(r@) == line_type_names(self@.line_types),
    {
        let mut r: Vec<Vec<char>> = Vec::new();
        let mut i: usize = 0;
        while i < self.line_types.len()
            invariant
                i <= self.line_types@.len(),
                names_view(r@) == line_type_names(self@.line_types).take(i as int),
            decreases self.line_types.len() - i,
        {
            proof {
                assert(self@.line_types[i as int] == self.line_types@[i as int]@);
            }
            let name = chars_of(self.line_types[i].name.as_str());
            let ghost rv = names_view(r@);
            let ghost nv = name@;
            r.push(name);
            proof {
                assert(names_view(r@) =~= rv.push(nv));
                assert(line_type_names(self@.line_types).take(i + 1) =~= line_type_names(self@.line_types).take(i as int).push(self@.line_types[i as int].name));
            }
            i = i + 1;
        }
        proof {
            assert(line_type_names(self@.line_types).take(i as int) =~= line_type_names(self@.line_types));
        }
        r
    }

    /// Adds default line_types with the given names, in order.
    fn add_missing_line_types(&mut self, names: &Vec<Vec<char>>)
        requires
            has_handle_room(old(self)@, names@.len() as int),
        ensures
            final(self)@ == (DrawingModel {
                line_types: old(self)@.line_types + new_line_types(names_view(names@), old(self)@.last_handle),
                last_handle: handle_after(old(self)@.last_handle, names@.len() as nat),
                ..old(self)@
            }),
    {
        let mut k: usize = 0;
        proof {
            assert(old(self)@.line_types + new_line_types(names_view(names@).take(0), old(self)@.last_handle) =~= old(self)@.line_types);
        }
        while k < names.len()
            invariant
                k <= names@.len(),
                self@ == (DrawingModel {
                    line_types: old(self)@.line_types + new_line_types(names_view(names@).take(k as int), old(self)@.last_handle),
                    last_handle: handle_after(old(self)@.last_handle, k as nat),
                    ..old(self)@
                }),
                handle_floor(self@.last_handle) + (names@.len() - k) <= u64::MAX,
            decreases names.len() - k,
        {
            let mut item = LineType::default();
            item.name = string_of(names[k].as_slice());
            let ghost before = self@;
            proof {
                lemma_handle_floor_next(self@.last_handle);
            }
            self.add_line_type(item);
            k = k + 1;
            proof {
                assert(names_view(names@)[k - 1] == names@[k - 1]@);
                assert(old(self)@.line_types + new_line_types(names_view(names@).take(k as int), old(self)@.last_handle)
                    =~= before.line_types.push(self@.line_types.last()));
            }
        }
        proof {
            assert(names_view(names@).take(k as int) =~= names_view(names@));
        }
    }

    /// The names of the styles, in order.
    fn style_name_list(&self) -> (r: Vec<Vec<char>>)
        ensures
            names_view(r@) == style_names(self@.styles),
    {
        let mut r: Vec<Vec<char>> = Vec::new();
        let mut i: usize = 0;
        while i < self.styles.len()
            invariant
                i <= self.styles@.len(),
                names_view(r@) == style_names(self@.styles).take(i as int),
            decreases self.styles.len() - i,
        {
            proof {
                assert(self@.styles[i as int] == self.styles@[i as int]@);
            }
            let name = chars_of(self.styles[i].name.as_str());
            let ghost rv = names_view(r@);
            let ghost nv = name@;
            r.push(name);
            proof {
                assert(names_view(r@) =~= rv.push(nv));
                assert(style_names(self@.styles).take(i + 1) =~= style_names(self@.styles).take(i as int).push(self@.styles[i as int].name));
            }
            i = i + 1;
        }
        proof {
            assert(style_names(self@.styles).take(i as int) =~= style_names(self@.styles));
        }
        r
    }

    /// Adds default styles with the given names, in order.
    fn add_missing_styles(&mut self, names: &Vec<Vec<char>>)
        requires
            has_handle_room(old(self)@, names@.len() as int),
        ensures
            final(self)@ == (DrawingModel {
                styles: old(self)@.styles + new_styles(names_view(names@), old(self)@.last_handle),
                last_handle: handle_after(old(self)@.last_handle, names@.len() as nat),
                ..old(self)@
            }),
    {
        let mut k: usize = 0;
        proof {
            assert(old(self)@.styles + new_styles(names_view(names@).take(0), old(self)@.last_handle) =~= old(self)@.styles);
        }
        while k < names.len()
            invariant
                k <= names@.len(),
                self@ == (DrawingModel {
                    styles: old(self)@.styles + new_styles(names_view(names@).take(k as int), old(self)@.last_handle),
                    last_handle: handle_after(old(self)@.last_handle, k as nat),
                    ..old(self)@
                }),
                handle_floor(self@.last_handle) + (names@.len() - k) <= u64::MAX,
            decreases names.len() - k,
        {
            let mut item = Style::default();
            item.name = string_of(names[k].as_slice());
            let ghost before = self@;
            proof {
                lemma_handle_floor_next(self@.last_handle);
            }
            self.add_style(item);
            k = k + 1;
            proof {
                assert(names_view(names@)[k - 1] == names@[k - 1]@);
                assert(old(self)@.styles + new_styles(names_view(names@).take(k as int), old(self)@.last_handle)
                    =~= before.styles.push(self@.styles.last()));
            }
        }
        proof {
            assert(names_view(names@).take(k as int) =~= names_view(names@));
        }
    }

    /// The names of the view_ports, in order.
    fn view_port_name_list(&self) -> (r: Vec<Vec<char>>)
        ensures
            names_view(r@) == view_port_names(self@.view_ports),
    {
        let mut r: Vec<Vec<char>> = Vec::new();
        let mut i: usize = 0;
        while i < self.view_ports.len()
            invariant
                i <= self.view_ports@.len(),
                names_view(r@) == view_port_names(self@.view_ports).take(i as int),
            decreases self.view_ports.len() - i,
        {
            proof {
                assert(self@.view_ports[i as int] == self.view_ports@[i as int]@);
            }
            let name = chars_of(self.view_ports[i].name.as_str());
            let ghost rv = names_view(r@);
            let ghost nv = name@;
            r.push(name);
            proof {
                assert(names_view(r@) =~= rv.push(nv));
                assert(view_port_names(self@.view_ports).take(i + 1) =~= view_port_names(self@.view_ports).take(i as int).push(self@.view_ports[i as int].name));
            }
            i = i + 1;
        }
        proof {
            assert(view_port_names(self@.view_ports).take(i as int) =~= view_port_names(self@.view_ports));
        }
        r
    }

    /// Adds default view_ports with the given names, in order.
    fn add_missing_view_ports(&mut self, names: &Vec<Vec<char>>)
        requires
            has_handle_room(old(self)@, names@.len() as int),
        ensures
            final(self)@ == (DrawingModel {
                view_ports: old(self)@.view_ports + new_view_ports(names_view(names@), old(self)@.last_handle),
                last_handle: handle_after(old(self)@.last_handle, names@.len() as nat),
                ..old(self)@
            }),
    {
        let mut k: usize = 0;
        proof {
            assert(old(self)@.view_ports + new_view_ports(names_view(names@).take(0), old(self)@.last_handle) =~= old(self)@.view_ports);
        }
        while k < names.len()
            invariant
                k <= names@.len(),
                self@ == (DrawingModel {
                    view_ports: old(self)@.view_ports + new_view_ports(names_view(names@).take(k as int), old(self)@.last_handle),
                    last_handle: handle_after(old(self)@.last_handle, k as nat),
                    ..old(self)@
                }),
                handle_floor(self@.last_handle) + (names@.len() - k) <= u64::MAX,
            decreases names.len() - k,
        {
            let mut item = ViewPort::default();
            item.name = string_of(names[k].as_slice());
            let ghost before = self@;
            proof {
                lemma_handle_floor_next(self@.last_handle);
            }
            self.add_view_port(item);
            k = k + 1;
            proof {
                assert(names_view(names@)[k - 1] == names@[k - 1]@);
                assert(old(self)@.view_ports + new_view_ports(names_view(names@).take(k as int), old(self)@.last_handle)
                    =~= before.view_ports.push(self@.view_ports.last()));
            }
        }
        proof {
            assert(names_view(names@).take(k as int) =~= names_view(names@));
        }
    }

    /// The names of the ucss, in order.
    fn ucs_name_list(&self) -> (r: Vec<Vec<char>>)
        ensures
            names_view(r@) == ucs_names(self@.ucss),
    {
        let mut r: Vec<Vec<char>> = Vec::new();
        let mut i: usize = 0;
        while i < self.ucss.len()
            invariant
                i <= self.ucss@.len(),
                names_view(r@) == ucs_names(self@.ucss).take(i as int),
            decreases self.ucss.len() - i,
        {
            proof {
                assert(self@.ucss[i as int] == self.ucss@[i as int]@);
            }
            let name = chars_of(self.ucss[i].name.as_str());
            let ghost rv = names_view(r@);
            let ghost nv = name@;
            r.push(name);
            proof {
                assert(names_view(r@) =~= rv.push(nv));
                assert(ucs_names(self@.ucss).take(i + 1) =~= ucs_names(self@.ucss).take(i as int).push(self@.ucss[i as int].name));
            }
            i = i + 1;
        }
        proof {
            assert(ucs_names(self@.ucss).take(i as int) =~= ucs_names(self@.ucss));
        }
        r
    }

    /// Adds default ucss with the given names, in order.
    fn add_missing_ucss(&mut self, names: &Vec<Vec<char>>)
        requires
            has_handle_room(old(self)@, names@.len() as int),
        ensures
            final(self)@ == (DrawingModel {
                ucss: old(self)@.ucss + new_ucss(names_view(names@), old(self)@.last_handle),
                last_handle: handle_after(old(self)@.last_handle, names@.len() as nat),
                ..old(self)@
            }),
    {
        let mut k: usize = 0;
        proof {
            assert(old(self)@.ucss + new_ucss(names_view(names@).take(0), old(self)@.last_handle) =~= old(self)@.ucss);
        }
        while k < names.len()
            invariant
                k <= names@.len(),
                self@ == (DrawingModel {
                    ucss: old(self)@.ucss + new_ucss(names_view(names@).take(k as int), old(self)@.last_handle),
                    last_handle: handle_after(old(self)@.last_handle, k as nat),
                    ..old(self)@
                }),
                handle_floor(self@.last_handle) + (names@.len() - k) <= u64::MAX,
            decreases names.len() - k,
        {
            let mut item = Ucs::default();
            item.name = string_of(names[k].as_slice());
            let ghost before = self@;
            proof {
                lemma_handle_floor_next(self@.last_handle);
            }
            self.add_ucs(item);
            k = k + 1;
            proof {
                assert(names_view(names@)[k - 1] == names@[k - 1]@);
                assert(old(self)@.ucss + new_ucss(names_view(names@).take(k as int), old(self)@.last_handle)
                    =~= before.ucss.push(self@.ucss.last()));
            }
        }
        proof {
            assert(names_view(names@).take(k as int) =~= names_view(names@));
        }
    }

    /// The names of the app_ids, in order.
    fn app_id_name_list(&self) -> (r: Vec<Vec<char>>)
        ensures
            names_view(r@) == app_id_names(self@.app_ids),
    {
        let mut r: Vec<Vec<char>> = Vec::new();
        let mut i: usize = 0;
        while i < self.app_ids.len()
            invariant
                i <= self.app_ids@.len(),
                names_view(r@) == app_id_names(self@.app_ids).take(i as int),
            decreases self.app_ids.len() - i,
        {
            proof {
                assert(self@.app_ids[i as int] == self.app_ids@[i as int]@);
            }
            let name = chars_of(self.app_ids[i].name.as_str());
            let ghost rv = names_view(r@);
            let ghost nv = name@;
            r.push(name);
            proof {
                assert(names_view(r@) =~= rv.push(nv));
                assert(app_id_names(self@.app_ids).take(i + 1) =~= app_id_names(self@.app_ids).take(i as int).push(self@.app_ids[i as int].name));
            }
            i = i + 1;
        }
        proof {
            assert(app_id_names(self@.app_ids).take(i as int) =~= app_id_names(self@.app_ids));
        }
        r
    }

    /// Adds default app_ids with the given names, in order.
    fn add_missing_app_ids(&mut self, names: &Vec<Vec<char>>)
        requires
            has_handle_room(old(self)@, names@.len() as int),
        ensures
            final(self)@ == (DrawingModel {
                app_ids: old(self)@.app_ids + new_app_ids(names_view(names@), old(self)@.last_handle),
                last_handle: handle_after(old(self)@.last_handle, names@.len() as nat),
                ..old(self)@
            }),
    {
        let mut k: usize = 0;
        proof {
            assert(old(self)@.app_ids + new_app_ids(names_view(names@).take(0), old(self)@.last_handle) =~= old(self)@.app_ids);
        }
        while k < names.len()
            invariant
                k <= names@.len(),
                self@ == (DrawingModel {
                    app_ids: old(self)@.app_ids + new_app_ids(names_view(names@).take(k as int), old(self)@.last_handle),
                    last_handle: handle_after(old(self)@.last_handle, k as nat),
                    ..old(self)@
                }),
                handle_floor(self@.last_handle) + (names@.len() - k) <= u64::MAX,
            decreases names.len() - k,
        {
            let mut item = AppId::default();
            item.name = string_of(names[k].as_slice());
            let ghost before = self@;
            proof {
                lemma_handle_floor_next(self@.last_handle);
            }
            self.add_app_id(item);
            k = k + 1;
            proof {
                assert(names_view(names@)[k - 1] == names@[k - 1]@);
                assert(old(self)@.app_ids + new_app_ids(names_view(names@).take(k as int), old(self)@.last_handle)
                    =~= before.app_ids.push(self@.app_ids.last()));
            }
        }
        proof {
            assert(names_view(names@).take(k as int) =~= names_view(names@));
        }
    }

    /// The names of the block_records, in order.
    fn block_record_name_list(&self) -> (r: Vec<Vec<char>>)
        ensures
            names_view(r@) == block_record_names(self@.block_records),
    {
        let mut r: Vec<Vec<char>> = Vec::new();
        let mut i: usize = 0;
        while i < self.block_records.len()
            invariant
                i <= self.block_records@.len(),
                names_view(r@) == block_record_names(self@.block_records).take(i as int),
            decreases self.block_records.len() - i,
        {
            proof {
                assert(self@.block_records[i as int] == self.block_records@[i as int]@);
            }
            let name = chars_of(self.block_records[i].name.as_str());
            let ghost rv = names_view(r@);
            let ghost nv = name@;
            r.push(name);
            proof {
                assert(names_view(r@) =~= rv.push(nv));
                assert(block_record_names(self@.block_records).take(i + 1) =~= block_record_names(self@.block_records).take(i as int).push(self@.block_records[i as int].name));
            }
            i = i + 1;
        }
        proof {
            assert(block_record_names(self@.block_records).take(i as int) =~= block_record_names(self@.block_records));
        }
        r
    }

    /// Adds default block_records with the given names, in order.
    fn add_missing_block_records(&mut self, names: &Vec<Vec<char>>)
        requires
            has_handle_room(old(self)@, names@.len() as int),
        ensures
            final(self)@ == (DrawingModel {
                block_records: old(self)@.block_records + new_block_records(names_view(names@), old(self)@.last_handle),
                last_handle: handle_after(old(self)@.last_handle, names@.len() as nat),
                ..old(self)@
            }),
    {
        let mut k: usize = 0;
        proof {
            assert(old(self)@.block_records + new_block_records(names_view(names@).take(0), old(self)@.last_handle) =~= old(self)@.block_records);
        }
        while k < names.len()
            invariant
                k <= names@.len(),
                self@ == (DrawingModel {
                    block_records: old(self)@.block_records + new_block_records(names_view(names@).take(k as int), old(self)@.last_handle),
                    last_handle: handle_after(old(self)@.last_handle, k as nat),
                    ..old(self)@
                }),
                handle_floor(self@.last_handle) + (names@.len() - k) <= u64::MAX,
            decreases names.len() - k,
        {
            let mut item = BlockRecord::default();
            item.name = string_of(names[k].as_slice());
            let ghost before = self@;
            proof {
                lemma_handle_floor_next(self@.last_handle);
            }
            self.add_block_record(item);
            k = k + 1;
            proof {
                assert(names_view(names@)[k - 1] == names@[k - 1]@);
                assert(old(self)@.block_records + new_block_records(names_view(names@).take(k as int), old(self)@.last_handle)
                    =~= before.block_records.push(self@.block_records.last()));
            }
        }
        proof {
            assert(names_view(names@).take(k as int) =~= names_view(names@));
        }
    }

    /// Normalizes every layer.
    fn normalize_layers_items(&mut self)
        ensures
            final(self)@ == (DrawingModel {
                layers: old(self)@.layers.map_values(|x: LayerModel| normalized_layer(x)),
                ..old(self)@
            }),
    {
        let mut rest: Vec<Layer> = Vec::new();
        std::mem::swap(&mut rest, &mut self.layers);
        let ghost orig = old(self)@.layers;
        proof {
            assert(rest@.map_values(|x: Layer| x@) == orig);
            assert(self.layers@.map_values(|x: Layer| x@) =~= orig.take(0).map_values(|x: LayerModel| normalized_layer(x)));
            assert(rest@.map_values(|x: Layer| x@) =~= orig.skip(0));
        }
        while rest.len() > 0
            invariant
                self.layers@.len() + rest@.len() == orig.len(),
                self.layers@.map_values(|x: Layer| x@) == orig.take(self.layers@.len() as int).map_values(|x: LayerModel| normalized_layer(x)),
                rest@.map_values(|x: Layer| x@) == orig.skip(self.layers@.len() as int),
                self@ == (DrawingModel { layers: self.layers@.map_values(|x: Layer| x@), ..old(self)@ }),
            decreases rest.len(),
        {
            let ghost k = self.layers@.len() as int;
            let ghost before = self.layers@.map_values(|x: Layer| x@);
            let ghost rbefore = rest@.map_values(|x: Layer| x@);
            proof {
                assert(rest@.map_values(|x: Layer| x@)[0] == rest@[0]@);
            }
            let mut item = rest.remove(0);
            item.normalize();
            self.layers.push(item);
            proof {
                assert(self.layers@.map_values(|x: Layer| x@) =~= before.push(item@));
                assert(orig.take(k + 1).map_values(|x: LayerModel| normalized_layer(x)) =~= orig.take(k).map_values(|x: LayerModel| normalized_layer(x)).push(normalized_layer(orig[k])));
                assert(rest@.map_values(|x: Layer| x@) =~= rbefore.drop_first());
                assert(rbefore.drop_first() =~= orig.skip(k + 1));
                assert(self@ =~= (DrawingModel { layers: self.layers@.map_values(|x: Layer| x@), ..old(self)@ }));
            }
        }
        proof {
            assert(orig.take(orig.len() as int) =~= orig);
        }
    }

    /// Normalizes every text style.
    fn normalize_styles_items(&mut self)
        ensures
            final(self)@ == (DrawingModel {
                styles: old(self)@.styles.map_values(|x: StyleModel| normalized_style(x)),
                ..old(self)@
            }),
    {
        let mut rest: Vec<Style> = Vec::new();
        std::mem::swap(&mut rest, &mut self.styles);
        let ghost orig = old(self)@.styles;
        proof {
            assert(rest@.map_values(|x: Style| x@) == orig);
            assert(self.styles@.map_values(|x: Style| x@) =~= orig.take(0).map_values(|x: StyleModel| normalized_style(x)));
            assert(rest@.map_values(|x: Style| x@) =~= orig.skip(0));
        }
        while rest.len() > 0
            invariant
                self.styles@.len() + rest@.len() == orig.len(),
                self.styles@.map_values(|x: Style| x@) == orig.take(self.styles@.len() as int).map_values(|x: StyleModel| normalized_style(x)),
                rest@.map_values(|x: Style| x@) == orig.skip(self.styles@.len() as int),
                self@ == (DrawingModel { styles: self.styles@.map_values(|x: Style| x@), ..old(self)@ }),
            decreases rest.len(),
        {
            let ghost k = self.styles@.len() as int;
            let ghost before = self.styles@.map_values(|x: Style| x@);
            let ghost rbefore = rest@.map_values(|x: Style| x@);
            proof {
                assert(rest@.map_values(|x: Style| x@)[0] == rest@[0]@);
            }
            let mut item = rest.remove(0);
            item.normalize();
            self.styles.push(item);
            proof {
                assert(self.styles@.map_values(|x: Style| x@) =~= before.push(item@));
                assert(orig.take(k + 1).map_values(|x: StyleModel| normalized_style(x)) =~= orig.take(k).map_values(|x: StyleModel| normalized_style(x)).push(normalized_style(orig[k])));
                assert(rest@.map_values(|x: Style| x@) =~= rbefore.drop_first());
                assert(rbefore.drop_first() =~= orig.skip(k + 1));
                assert(self@ =~= (DrawingModel { styles: self.styles@.map_values(|x: Style| x@), ..old(self)@ }));
            }
        }
        proof {
            assert(orig.take(orig.len() as int) =~= orig);
        }
    }

    /// Normalizes every named view.
    fn normalize_views_items(&mut self)
        ensures
            final(self)@ == (DrawingModel {
                views: old(self)@.views.map_values(|x: ViewModel| normalized_view(x)),
                ..old(self)@
            }),
    {
        let mut rest: Vec<View> = Vec::new();
        std::mem::swap(&mut rest, &mut self.views);
        let ghost orig = old(self)@.views;
        proof {
            assert(rest@.map_values(|x: View| x@) == orig);
            assert(self.views@.map_values(|x: View| x@) =~= orig.take(0).map_values(|x: ViewModel| normalized_view(x)));
            assert(rest@.map_values(|x: View| x@) =~= orig.skip(0));
        }
        while rest.len() > 0
            invariant
                self.views@.len() + rest@.len() == orig.len(),
                self.views@.map_values(|x: View| x@) == orig.take(self.views@.len() as int).map_values(|x: ViewModel| normalized_view(x)),
                rest@.map_values(|x: View| x@) == orig.skip(self.views@.len() as int),
                self@ == (DrawingModel { views: self.views@.map_values(|x: View| x@), ..old(self)@ }),
            decreases rest.len(),
        {
            let ghost k = self.views@.len() as int;
            let ghost before = self.views@.map_values(|x: View| x@);
            let ghost rbefore = rest@.map_values(|x: View| x@);
            proof {
                assert(rest@.map_values(|x: View| x@)[0] == rest@[0]@);
            }
            let mut item = rest.remove(0);
            item.normalize();
            self.views.push(item);
            proof {
                assert(self.views@.map_values(|x: View| x@) =~= before.push(item@));
                assert(orig.take(k + 1).map_values(|x: ViewModel| normalized_view(x)) =~= orig.take(k).map_values(|x: ViewModel| normalized_view(x)).push(normalized_view(orig[k])));
                assert(rest@.map_values(|x: View| x@) =~= rbefore.drop_first());
                assert(rbefore.drop_first() =~= orig.skip(k + 1));
                assert(self@ =~= (DrawingModel { views: self.views@.map_values(|x: View| x@), ..old(self)@ }));
            }
        }
        proof {
            assert(orig.take(orig.len() as int) =~= orig);
        }
    }

    /// Normalizes every view port.
    fn normalize_view_ports_items(&mut self)
        ensures
            final(self)@ == (DrawingModel {
                view_ports: old(self)@.view_ports.map_values(|x: ViewPortModel| normalized_view_port(x)),
                ..old(self)@
            }),
    {
        let mut rest: Vec<ViewPort> = Vec::new();
        std::mem::swap(&mut rest, &mut self.view_ports);
        let ghost orig = old(self)@.view_ports;
        proof {
            assert(rest@.map_values(|x: ViewPort| x@) == orig);
            assert(self.view_ports@.map_values(|x: ViewPort| x@) =~= orig.take(0).map_values(|x: ViewPortModel| normalized_view_port(x)));
            assert(rest@.map_values(|x: ViewPort| x@) =~= orig.skip(0));
        }
        while rest.len() > 0
            invariant
                self.view_ports@.len() + rest@.len() == orig.len(),
                self.view_ports@.map_values(|x: ViewPort| x@) == orig.take(self.view_ports@.len() as int).map_values(|x: ViewPortModel| normalized_view_port(x)),
                rest@.map_values(|x: ViewPort| x@) == orig.skip(self.view_ports@.len() as int),
                self@ == (DrawingModel { view_ports: self.view_ports@.map_values(|x: ViewPort| x@), ..old(self)@ }),
            decreases rest.len(),
        {
            let ghost k = self.view_ports@.len() as int;
            let ghost before = self.view_ports@.map_values(|x: ViewPort| x@);
            let ghost rbefore = rest@.map_values(|x: ViewPort| x@);
            proof {
                assert(rest@.map_values(|x: ViewPort| x@)[0] == rest@[0]@);
            }
            let mut item = rest.remove(0);
            item.normalize();
            self.view_ports.push(item);
            proof {
                assert(self.view_ports@.map_values(|x: ViewPort| x@) =~= before.push(item@));
                assert(orig.take(k + 1).map_values(|x: ViewPortModel| normalized_view_port(x)) =~= orig.take(k).map_values(|x: ViewPortModel| normalized_view_port(x)).push(normalized_view_port(orig[k])));
                assert(rest@.map_values(|x: ViewPort| x@) =~= rbefore.drop_first());
                assert(rbefore.drop_first() =~= orig.skip(k + 1));
                assert(self@ =~= (DrawingModel { view_ports: self.view_ports@.map_values(|x: ViewPort| x@), ..old(self)@ }));
            }
        }
        proof {
            assert(orig.take(orig.len() as int) =~= orig);
        }
    }

    /// The names of the text styles that every drawing has.
    fn style_candidate_list(&self) -> (r: Vec<Vec<char>>)
        ensures
            names_view(r@) == style_candidates(),
            r@.len() == 2,
    {
        let mut r: Vec<Vec<char>> = Vec::new();
        r.push(vec!['A', 'N', 'N', 'O', 'T', 'A', 'T', 'I', 'V', 'E']);
        r.push(vec!['S', 'T', 'A', 'N', 'D', 'A', 'R', 'D']);
        proof {
            assert(names_view(r@) =~= style_candidates());
        }
        r
    }

    /// The names of the view ports that every drawing has.
    fn view_port_candidate_list(&self) -> (r: Vec<Vec<char>>)
        ensures
            names_view(r@) == view_port_candidates(),
            r@.len() == 1,
    {
        let mut r: Vec<Vec<char>> = Vec::new();
        r.push(vec!['*', 'A', 'C', 'T', 'I', 'V', 'E']);
        proof {
            assert(names_view(r@) =~= view_port_candidates());
        }
        r
    }

    /// The names of the registered applications that every drawing has.
    fn app_id_candidate_list(&self) -> (r: Vec<Vec<char>>)
        ensures
            names_view(r@) == app_id_candidates(),
            r@.len() == 4,
    {
        let mut r: Vec<Vec<char>> = Vec::new();
        r.push(vec!['A', 'C', 'A', 'D']);
        r.push(vec!['A', 'C', 'A', 'D', 'A', 'N', 'N', 'O', 'T', 'A', 'T', 'I', 'V', 'E']);
        r.push(vec!['A', 'C', 'A', 'D', '_', 'M', 'L', 'E', 'A', 'D', 'E', 'R', 'V', 'E', 'R']);
        r.push(vec!['A', 'C', 'A', 'D', '_', 'N', 'A', 'V', '_', 'V', 'C', 'D', 'I', 'S', 'P', 'L', 'A', 'Y']);
        proof {
            assert(names_view(r@) =~= app_id_candidates());
        }
        r
    }

    /// The names of the block records that every drawing has.
    fn block_record_candidate_list(&self) -> (r: Vec<Vec<char>>)
        ensures
            names_view(r@) == block_record_candidates(),
            r@.len() == 2,
    {
        let mut r: Vec<Vec<char>> = Vec::new();
        r.push(vec!['*', 'M', 'O', 'D', 'E', 'L', '_', 'S', 'P', 'A', 'C', 'E']);
        r.push(vec!['*', 'P', 'A', 'P', 'E', 'R', '_', 'S', 'P', 'A', 'C', 'E']);
        proof {
            assert(names_view(r@) =~= block_record_candidates());
        }
        r
    }

    /// The names of the layers that every drawing has.
    fn layer_candidate_list(&self) -> (r: Vec<Vec<char>>)
        ensures
            names_view(r@) == layer_candidates(self@.current_layer),
            r@.len() <= 2,
    {
        let mut r: Vec<Vec<char>> = Vec::new();
        let zero: Vec<char> = vec!['0'];
        proof {
            assert(zero@ =~= seq!['0']);
        }
        r.push(zero);
        let current = chars_of(self.header.current_layer.as_str());
        if current.len() > 0 {
            r.push(current);
        }
        proof {
            assert(names_view(r@) =~= layer_candidates(self@.current_layer));
        }
        r
    }

    /// The names of the user coordinate systems that every drawing has.
    fn ucs_candidate_list(&self) -> (r: Vec<Vec<char>>)
        ensures
            names_view(r@) == ucs_candidates(self@.ucs_name),
            r@.len() <= 1,
    {
        let mut r: Vec<Vec<char>> = Vec::new();
        let name = chars_of(self.header.ucs_name.as_str());
        if name.len() > 0 {
            r.push(name);
        }
        proof {
            assert(names_view(r@) =~= ucs_candidates(self@.ucs_name));
        }
        r
    }

    /// The names of the line types that every drawing has.
    fn line_type_candidate_list(&self) -> (r: Vec<Vec<char>>)
        ensures
            names_view(r@) == line_type_candidates(self@.layers),
            r@.len() == 3 + self@.layers.len(),
    {
        let mut r: Vec<Vec<char>> = Vec::new();
        r.push(vec!['B', 'Y', 'B', 'L', 'O', 'C', 'K']);
        r.push(vec!['B', 'Y', 'L', 'A', 'Y', 'E', 'R']);
        r.push(vec!['C', 'O', 'N', 'T', 'I', 'N', 'U', 'O', 'U', 'S']);
        let ghost fixed = seq![byblock(), bylayer(), continuous()];
        let ghost used = self@.layers.map_values(|l: LayerModel| l.line_type_name);
        proof {
            assert(names_view(r@) =~= fixed + used.take(0));
        }
        let mut i: usize = 0;
        while i < self.layers.len()
            invariant
                i <= self.layers@.len(),
                used == self@.layers.map_values(|l: LayerModel| l.line_type_name),
                names_view(r@) == fixed + used.take(i as int),
                fixed == seq![byblock(), bylayer(), continuous()],
            decreases self.layers.len() - i,
        {
            proof {
                assert(self@.layers[i as int] == self.layers@[i as int]@);
            }
            let name = chars_of(self.layers[i].line_type_name.as_str());
            let ghost rv = names_view(r@);
            let ghost nv = name@;
            r.push(name);
            proof {
                assert(names_view(r@) =~= rv.push(nv));
                assert(fixed + used.take(i + 1) =~= (fixed + used.take(i as int)).push(used[i as int]));
            }
            i = i + 1;
        }
        proof {
            assert(used.take(i as int) =~= used);
        }
        r
    }

    /// Ensures the drawing has every item that a drawing must have, and that
    /// all its items are valid, as `normalized_drawing` describes.
    pub fn normalize(&mut self)
        requires
            has_handle_room(old(self)@, normalize_handle_need(old(self)@)),
        ensures
            final(self)@ == normalized_drawing(old(self)@),
            handle_floor(final(self)@.last_handle) <= handle_floor(old(self)@.last_handle)
                + normalize_handle_need(old(self)@),
    {
        let ghost d = old(self)@;
        self.normalize_layers_items();
        let existing = self.layer_name_list();
        let cands = self.layer_candidate_list();
        let names = missing_sorted(&existing, &cands);
        let ghost last = self@.last_handle;
        proof {
            assert(handle_floor(last) <= handle_floor(d.last_handle) + 0);
            assert(handle_floor(last) + names@.len() <= handle_floor(d.last_handle) + 2);
        }
        self.add_missing_layers(&names);
        proof {
            lemma_handle_floor_after(last, names@.len() as nat);
            assert(self@.layers.len() == d.layers.len() + names@.len());
        }
        let existing = self.line_type_name_list();
        let cands = self.line_type_candidate_list();
        let names = missing_sorted(&existing, &cands);
        let ghost last = self@.last_handle;
        proof {
            assert(handle_floor(last) <= handle_floor(d.last_handle) + 2);
            assert(handle_floor(last) + names@.len() <= handle_floor(d.last_handle) + 7 + d.layers.len());
        }
        self.add_missing_line_types(&names);
        proof {
            lemma_handle_floor_after(last, names@.len() as nat);
        }
        self.normalize_styles_items();
        let existing = self.style_name_list();
        let cands = self.style_candidate_list();
        let names = missing_sorted(&existing, &cands);
        let ghost last = self@.last_handle;
        proof {
            assert(handle_floor(last) <= handle_floor(d.last_handle) + 7 + d.layers.len());
            assert(handle_floor(last) + names@.len() <= handle_floor(d.last_handle) + 9 + d.layers.len());
        }
        self.add_missing_styles(&names);
        proof {
            lemma_handle_floor_after(last, names@.len() as nat);
        }
        self.normalize_views_items();
        self.normalize_view_ports_items();
        let existing = self.view_port_name_list();
        let cands = self.view_port_candidate_list();
        let names = missing_sorted(&existing, &cands);
        let ghost last = self@.last_handle;
        proof {
            assert(handle_floor(last) <= handle_floor(d.last_handle) + 9 + d.layers.len());
            assert(handle_floor(last) + names@.len() <= handle_floor(d.last_handle) + 10 + d.layers.len());
        }
        self.add_missing_view_ports(&names);
        proof {
            lemma_handle_floor_after(last, names@.len() as nat);
        }
        let existing = self.ucs_name_list();
        let cands = self.ucs_candidate_list();
        let names = missing_sorted(&existing, &cands);
        let ghost last = self@.last_handle;
        proof {
            assert(handle_floor(last) <= handle_floor(d.last_handle) + 10 + d.layers.len());
            assert(handle_floor(last) + names@.len() <= handle_floor(d.last_handle) + 11 + d.layers.len());
        }
        self.add_missing_ucss(&names);
        proof {
            lemma_handle_floor_after(last, names@.len() as nat);
        }
        let existing = self.app_id_name_list();
        let cands = self.app_id_candidate_list();
        let names = missing_sorted(&existing, &cands);
        let ghost last = self@.last_handle;
        proof {
            assert(handle_floor(last) <= handle_floor(d.last_handle) + 11 + d.layers.len());
            assert(handle_floor(last) + names@.len() <= handle_floor(d.last_handle) + 15 + d.layers.len());
        }
        self.add_missing_app_ids(&names);
        proof {
            lemma_handle_floor_after(last, names@.len() as nat);
        }
        let existing = self.block_record_name_list();
        let cands = self.block_record_candidate_list();
        let names = missing_sorted(&existing, &cands);
        let ghost last = self@.last_handle;
        proof {
            assert(handle_floor(last) <= handle_floor(d.last_handle) + 15 + d.layers.len());
            assert(handle_floor(last) + names@.len() <= handle_floor(d.last_handle) + 17 + d.layers.len());
        }
        self.add_missing_block_records(&names);
        proof {
            lemma_handle_floor_after(last, names@.len() as nat);
        }
        proof {
            assert(self@ =~= normalized_drawing(d));
        }
    }

    /// Appends an item as it is, handle included.
    pub(crate) fn push_layer(&mut self, item: Layer)
        ensures
            final(self)@ == (DrawingModel { layers: old(self)@.layers.push(item@), ..old(self)@ }),
    {
        let ghost v = item@;
        self.layers.push(item);
        proof {
            assert(self@ =~= (DrawingModel { layers: old(self)@.layers.push(v), ..old(self)@ }));
        }
    }

    /// Appends an item as it is, handle included.
    pub(crate) fn push_line_type(&mut self, item: LineType)
        ensures
            final(self)@ == (DrawingModel { line_types: old(self)@.line_types.push(item@), ..old(self)@ }),
    {
        let ghost v = item@;
        self.line_types.push(item);
        proof {
            assert(self@ =~= (DrawingModel { line_types: old(self)@.line_types.push(v), ..old(self)@ }));
        }
    }

    /// Appends an item as it is, handle included.
    pub(crate) fn push_style(&mut self, item: Style)
        ensures
            final(self)@ == (DrawingModel { styles: old(self)@.styles.push(item@), ..old(self)@ }),
    {
        let ghost v = item@;
        self.styles.push(item);
        proof {
            assert(self@ =~= (DrawingModel { styles: old(self)@.styles.push(v), ..old(self)@ }));
        }
    }

    /// Appends an item as it is, handle included.
    pub(crate) fn push_view(&mut self, item: View)
        ensures
            final(self)@ == (DrawingModel { views: old(self)@.views.push(item@), ..old(self)@ }),
    {
        let ghost v = item@;
        self.views.push(item);
        proof {
            assert(self@ =~= (DrawingModel { views: old(self)@.views.push(v), ..old(self)@ }));
        }
    }

    /// Appends an item as it is, handle included.
    pub(crate) fn push_view_port(&mut self, item: ViewPort)
        ensures
            final(self)@ == (DrawingModel { view_ports: old(self)@.view_ports.push(item@), ..old(self)@ }),
    {
        let ghost v = item@;
        self.view_ports.push(item);
        proof {
            assert(self@ =~= (DrawingModel { view_ports: old(self)@.view_ports.push(v), ..old(self)@ }));
        }
    }

    /// Appends an item as it is, handle included.
    pub(crate) fn push_ucs(&mut self, item: Ucs)
        ensures
            final(self)@ == (DrawingModel { ucss: old(self)@.ucss.push(item@), ..old(self)@ }),
    {
        let ghost v = item@;
        self.ucss.push(item);
        proof {
            assert(self@ =~= (DrawingModel { ucss: old(self)@.ucss.push(v), ..old(self)@ }));
        }
    }

    /// Appends an item as it is, handle included.
    pub(crate) fn push_app_id(&mut self, item: AppId)
        ensures
            final(self)@ == (DrawingModel { app_ids: old(self)@.app_ids.push(item@), ..old(self)@ }),
    {
        let ghost v = item@;
        self.app_ids.push(item);
        proof {
            assert(self@ =~= (DrawingModel { app_ids: old(self)@.app_ids.push(v), ..old(self)@ }));
        }
    }

    /// Appends an item as it is, handle included.
    pub(crate) fn push_block_record(&mut self, item: BlockRecord)
        ensures
            final(self)@ == (DrawingModel { block_records: old(self)@.block_records.push(item@), ..old(self)@ }),
    {
        let ghost v = item@;
        self.block_records.push(item);
        proof {
            assert(self@ =~= (DrawingModel { block_records: old(self)@.block_records.push(v), ..old(self)@ }));
        }
    }
}

} // verus!
