//! What normalizing a drawing promises: afterwards the drawing has every item
//! that a drawing must have and all its items are valid, and a drawing in that
//! state is left as it is.

use vstd::prelude::*;

use crate::decimal::{lemma_small_wholes, Real};
use crate::linetype::ElementModel;
use crate::point::Vector;
use crate::tables::GroupModel;
use crate::drawing::{
    app_id_candidates, app_id_names, block_record_candidates, block_record_names, handle_after,
    layer_candidates, layer_names, line_type_candidates, line_type_names, missing, new_app_ids,
    new_block_records, new_layers, new_line_types, new_styles, new_ucss, new_view_ports,
    normalized_drawing, style_candidates, style_names, ucs_candidates, ucs_names,
    view_port_candidates, view_port_names, DrawingModel,
};
use crate::names::{lemma_sorted_names, lemma_sorted_names_of, strictly_sorted};
use crate::tables::{
    layer_normalize_law, normalized_layer, normalized_style, normalized_view,
    normalized_view_port, style_normalize_law, valid_layer, valid_style, valid_view,
    valid_view_port, view_normalize_law, view_port_normalize_law, LayerModel, StyleModel,
    ViewModel, ViewPortModel,
};

verus! {

/// Whether `names` holds every text of `cands`.
pub open spec fn has_all(names: Seq<Seq<char>>, cands: Seq<Seq<char>>) -> bool {
    forall|c: Seq<char>| #[trigger] cands.contains(c) ==> names.contains(c)
}

/// Whether a drawing is normal: each table holds the items that every drawing
/// must have (layer `0` and the current layer; the line types `BYBLOCK`,
/// `BYLAYER`, `CONTINUOUS` and those its layers use; the text styles
/// `ANNOTATIVE` and `STANDARD`; the view port `*ACTIVE`; the current UCS; the
/// registered applications `ACAD`, `ACADANNOTATIVE`, `ACAD_MLEADERVER` and
/// `ACAD_NAV_VCDISPLAY`; the block records `*MODEL_SPACE` and `*PAPER_SPACE`),
/// and every layer, text style, view and view port is valid.
pub open spec fn is_normal(d: DrawingModel) -> bool {
    &&& forall|i: int| 0 <= i < d.layers.len() ==> valid_layer(#[trigger] d.layers[i])
    &&& forall|i: int| 0 <= i < d.styles.len() ==> valid_style(#[trigger] d.styles[i])
    &&& forall|i: int| 0 <= i < d.views.len() ==> valid_view(#[trigger] d.views[i])
    &&& forall|i: int| 0 <= i < d.view_ports.len() ==> valid_view_port(#[trigger] d.view_ports[i])
    &&& has_all(layer_names(d.layers), layer_candidates(d.current_layer))
    &&& has_all(line_type_names(d.line_types), line_type_candidates(d.layers))
    &&& has_all(style_names(d.styles), style_candidates())
    &&& has_all(view_port_names(d.view_ports), view_port_candidates())
    &&& has_all(ucs_names(d.ucss), ucs_candidates(d.ucs_name))
    &&& has_all(app_id_names(d.app_ids), app_id_candidates())
    &&& has_all(block_record_names(d.block_records), block_record_candidates())
}

/// The missing texts are exactly the candidates that `existing` lacks.
proof fn lemma_missing(cands: Seq<Seq<char>>, existing: Seq<Seq<char>>)
    ensures
        has_all(existing + missing(cands, existing), cands),
        forall|c: Seq<char>| #[trigger]
            missing(cands, existing).contains(c) ==> cands.contains(c) && !existing.contains(c),
{
    let s = cands.to_set().difference(existing.to_set());
    vstd::seq_lib::seq_to_set_is_finite(cands);
    vstd::set::axiom_set_difference_finite(cands.to_set(), existing.to_set());
    lemma_sorted_names_of(s);
    let m = missing(cands, existing);
    assert(m.to_set() == s);
    assert forall|c: Seq<char>| #[trigger] cands.contains(c) implies (existing + m).contains(c) by {
        if existing.contains(c) {
            let k = choose|k: int| 0 <= k < existing.len() && existing[k] == c;
            assert((existing + m)[k] == c);
        } else {
            assert(s.contains(c));
            assert(m.to_set().contains(c));
            let k = choose|k: int| 0 <= k < m.len() && m[k] == c;
            assert((existing + m)[existing.len() + k] == c);
        }
    }
    assert forall|c: Seq<char>| #[trigger] m.contains(c) implies cands.contains(c)
        && !existing.contains(c) by {
        assert(m.to_set().contains(c));
        assert(s.contains(c));
    }
}

/// Nothing is missing where every candidate is there.
proof fn lemma_missing_none(cands: Seq<Seq<char>>, existing: Seq<Seq<char>>)
    requires
        has_all(existing, cands),
    ensures
        missing(cands, existing) == Seq::<Seq<char>>::empty(),
{
    let s = cands.to_set().difference(existing.to_set());
    assert(s =~= Set::<Seq<char>>::empty());
    assert(Seq::<Seq<char>>::empty().to_set() =~= Set::<Seq<char>>::empty());
    assert(strictly_sorted(Seq::<Seq<char>>::empty()));
    lemma_sorted_names(Seq::<Seq<char>>::empty(), s);
}

/// Normalized layers followed by new default layers are all valid and hold
/// every candidate name.
proof fn lemma_layers_normal(d: DrawingModel)
    ensures
        ({
            let n = normalized_drawing(d);
            &&& forall|i: int| 0 <= i < n.layers.len() ==> valid_layer(#[trigger] n.layers[i])
            &&& has_all(layer_names(n.layers), layer_candidates(d.current_layer))
        }),
{
    let layers1 = d.layers.map_values(|l: LayerModel| normalized_layer(l));
    let ln = missing(layer_candidates(d.current_layer), layer_names(layers1));
    let added = new_layers(ln, d.last_handle);
    let n = normalized_drawing(d);
    assert(n.layers == layers1 + added);
    assert forall|i: int| 0 <= i < n.layers.len() implies valid_layer(#[trigger] n.layers[i]) by {
        if i < layers1.len() {
            layer_normalize_law(d.layers[i]);
        } else {
            assert(n.layers[i] == added[i - layers1.len()]);
        }
    }
    assert(layer_names(n.layers) =~= layer_names(layers1) + ln);
    lemma_missing(layer_candidates(d.current_layer), layer_names(layers1));
}

/// The line types hold every candidate name after normalizing.
proof fn lemma_line_types_normal(d: DrawingModel)
    ensures
        ({
            let n = normalized_drawing(d);
            has_all(line_type_names(n.line_types), line_type_candidates(n.layers))
        }),
{
    let n = normalized_drawing(d);
    let layers1 = d.layers.map_values(|l: LayerModel| normalized_layer(l));
    let ln = missing(layer_candidates(d.current_layer), layer_names(layers1));
    let h1 = handle_after(d.last_handle, ln.len());
    let tn = missing(line_type_candidates(n.layers), line_type_names(d.line_types));
    assert(n.line_types == d.line_types + new_line_types(tn, h1));
    assert(line_type_names(n.line_types) =~= line_type_names(d.line_types) + tn);
    lemma_missing(line_type_candidates(n.layers), line_type_names(d.line_types));
}

/// Normalized text styles followed by new default ones are valid and hold every
/// candidate name.
proof fn lemma_styles_normal(d: DrawingModel)
    ensures
        ({
            let n = normalized_drawing(d);
            &&& forall|i: int| 0 <= i < n.styles.len() ==> valid_style(#[trigger] n.styles[i])
            &&& has_all(style_names(n.styles), style_candidates())
        }),
{
    lemma_small_wholes();
    let n = normalized_drawing(d);
    let styles1 = d.styles.map_values(|s: StyleModel| normalized_style(s));
    let sn = missing(style_candidates(), style_names(styles1));
    assert(n.styles.take(styles1.len() as int) =~= styles1);
    assert forall|i: int| 0 <= i < n.styles.len() implies valid_style(#[trigger] n.styles[i]) by {
        if i < styles1.len() {
            style_normalize_law(d.styles[i]);
        }
    }
    assert(style_names(n.styles) =~= style_names(styles1) + sn);
    lemma_missing(style_candidates(), style_names(styles1));
}

/// Normalized view ports followed by new default ones are valid and hold every
/// candidate name.
proof fn lemma_view_ports_normal(d: DrawingModel)
    ensures
        ({
            let n = normalized_drawing(d);
            &&& forall|i: int| 0 <= i < n.view_ports.len() ==> valid_view_port(
                #[trigger] n.view_ports[i],
            )
            &&& has_all(view_port_names(n.view_ports), view_port_candidates())
        }),
{
    lemma_small_wholes();
    let n = normalized_drawing(d);
    let ports1 = d.view_ports.map_values(|v: ViewPortModel| normalized_view_port(v));
    let pn = missing(view_port_candidates(), view_port_names(ports1));
    assert(n.view_ports.take(ports1.len() as int) =~= ports1);
    assert forall|i: int| 0 <= i < n.view_ports.len() implies valid_view_port(
        #[trigger] n.view_ports[i],
    ) by {
        if i < ports1.len() {
            view_port_normalize_law(d.view_ports[i]);
        }
    }
    assert(view_port_names(n.view_ports) =~= view_port_names(ports1) + pn);
    lemma_missing(view_port_candidates(), view_port_names(ports1));
}

/// The views are valid and the remaining tables hold every candidate name
/// after normalizing.
proof fn lemma_other_tables_normal(d: DrawingModel)
    ensures
        ({
            let n = normalized_drawing(d);
            &&& forall|i: int| 0 <= i < n.views.len() ==> valid_view(#[trigger] n.views[i])
            &&& has_all(ucs_names(n.ucss), ucs_candidates(n.ucs_name))
            &&& has_all(app_id_names(n.app_ids), app_id_candidates())
            &&& has_all(block_record_names(n.block_records), block_record_candidates())
        }),
{
    lemma_small_wholes();
    let n = normalized_drawing(d);
    assert forall|i: int| 0 <= i < n.views.len() implies valid_view(#[trigger] n.views[i]) by {
        view_normalize_law(d.views[i]);
    }
    let un = missing(ucs_candidates(d.ucs_name), ucs_names(d.ucss));
    let an = missing(app_id_candidates(), app_id_names(d.app_ids));
    let bn = missing(block_record_candidates(), block_record_names(d.block_records));
    assert(ucs_names(n.ucss) =~= ucs_names(d.ucss) + un);
    assert(app_id_names(n.app_ids) =~= app_id_names(d.app_ids) + an);
    assert(block_record_names(n.block_records) =~= block_record_names(d.block_records) + bn);
    lemma_missing(ucs_candidates(d.ucs_name), ucs_names(d.ucss));
    lemma_missing(app_id_candidates(), app_id_names(d.app_ids));
    lemma_missing(block_record_candidates(), block_record_names(d.block_records));
}

/// Normalizing any drawing makes it normal: afterwards every table holds the
/// items that every drawing must have, and every layer, text style, view and
/// view port is valid.
pub proof fn normalize_makes_normal(d: DrawingModel)
    ensures
        is_normal(normalized_drawing(d)),
{
    lemma_layers_normal(d);
    lemma_line_types_normal(d);
    lemma_styles_normal(d);
    lemma_view_ports_normal(d);
    lemma_other_tables_normal(d);
}

/// Normalizing keeps the items a drawing had, in their order and with their
/// handles and names (layers, text styles, views and view ports made valid),
/// keeps the header, and only appends new items.
pub proof fn normalize_keeps_items(d: DrawingModel)
    ensures
        ({
            let n = normalized_drawing(d);
            &&& n.version == d.version
            &&& n.current_layer == d.current_layer
            &&& n.ucs_name == d.ucs_name
            &&& n.layers.take(d.layers.len() as int) == d.layers.map_values(
                |l: LayerModel| normalized_layer(l),
            )
            &&& n.line_types.take(d.line_types.len() as int) == d.line_types
            &&& n.styles.take(d.styles.len() as int) == d.styles.map_values(
                |s: StyleModel| normalized_style(s),
            )
            &&& n.views == d.views.map_values(|v: ViewModel| normalized_view(v))
            &&& n.view_ports.take(d.view_ports.len() as int) == d.view_ports.map_values(
                |v: ViewPortModel| normalized_view_port(v),
            )
            &&& n.ucss.take(d.ucss.len() as int) == d.ucss
            &&& n.app_ids.take(d.app_ids.len() as int) == d.app_ids
            &&& n.block_records.take(d.block_records.len() as int) == d.block_records
        }),
{
    let n = normalized_drawing(d);
    assert(n.layers.take(d.layers.len() as int) =~= d.layers.map_values(
        |l: LayerModel| normalized_layer(l),
    ));
    assert(n.line_types.take(d.line_types.len() as int) =~= d.line_types);
    assert(n.styles.take(d.styles.len() as int) =~= d.styles.map_values(
        |s: StyleModel| normalized_style(s),
    ));
    assert(n.view_ports.take(d.view_ports.len() as int) =~= d.view_ports.map_values(
        |v: ViewPortModel| normalized_view_port(v),
    ));
    assert(n.ucss.take(d.ucss.len() as int) =~= d.ucss);
    assert(n.app_ids.take(d.app_ids.len() as int) =~= d.app_ids);
    assert(n.block_records.take(d.block_records.len() as int) =~= d.block_records);
}

/// Normalizing a normal drawing changes nothing: no item is added, no handle is
/// handed out, and every item stays as it is.
pub proof fn normal_drawing_is_fixed(d: DrawingModel)
    requires
        is_normal(d),
    ensures
        normalized_drawing(d) == d,
{
    let layers1 = d.layers.map_values(|l: LayerModel| normalized_layer(l));
    assert forall|i: int| 0 <= i < d.layers.len() implies layers1[i] == d.layers[i] by {
        layer_normalize_law(d.layers[i]);
    }
    assert(layers1 =~= d.layers);
    let styles1 = d.styles.map_values(|s: StyleModel| normalized_style(s));
    assert forall|i: int| 0 <= i < d.styles.len() implies styles1[i] == d.styles[i] by {
        style_normalize_law(d.styles[i]);
    }
    assert(styles1 =~= d.styles);
    let views1 = d.views.map_values(|v: ViewModel| normalized_view(v));
    assert forall|i: int| 0 <= i < d.views.len() implies views1[i] == d.views[i] by {
        view_normalize_law(d.views[i]);
    }
    assert(views1 =~= d.views);
    let ports1 = d.view_ports.map_values(|v: ViewPortModel| normalized_view_port(v));
    assert forall|i: int| 0 <= i < d.view_ports.len() implies ports1[i] == d.view_ports[i] by {
        view_port_normalize_law(d.view_ports[i]);
    }
    assert(ports1 =~= d.view_ports);
    let none = Seq::<Seq<char>>::empty();
    lemma_missing_none(layer_candidates(d.current_layer), layer_names(d.layers));
    lemma_missing_none(line_type_candidates(d.layers), line_type_names(d.line_types));
    lemma_missing_none(style_candidates(), style_names(d.styles));
    lemma_missing_none(view_port_candidates(), view_port_names(d.view_ports));
    lemma_missing_none(ucs_candidates(d.ucs_name), ucs_names(d.ucss));
    lemma_missing_none(app_id_candidates(), app_id_names(d.app_ids));
    lemma_missing_none(block_record_candidates(), block_record_names(d.block_records));
    assert(handle_after(d.last_handle, 0) == d.last_handle);
    assert(d.layers + new_layers(none, d.last_handle) =~= d.layers);
    assert(d.line_types + new_line_types(none, d.last_handle) =~= d.line_types);
    assert(d.styles + new_styles(none, d.last_handle) =~= d.styles);
    assert(d.view_ports + new_view_ports(none, d.last_handle) =~= d.view_ports);
    assert(d.ucss + new_ucss(none, d.last_handle) =~= d.ucss);
    assert(d.app_ids + new_app_ids(none, d.last_handle) =~= d.app_ids);
    assert(d.block_records + new_block_records(none, d.last_handle) =~= d.block_records);
    assert(normalized_drawing(d) =~= d);
}

/// Normalizing twice gives what normalizing once gives.
pub proof fn normalize_is_idempotent(d: DrawingModel)
    ensures
        normalized_drawing(normalized_drawing(d)) == normalized_drawing(d),
{
    normalize_makes_normal(d);
    normal_drawing_is_fixed(normalized_drawing(d));
}

/// The layers, line types, text styles and view ports that normalizing adds
/// follow the drawing's own items and are default items with only a name and a
/// new handle: each added layer is on, has color 7, the line type
/// `CONTINUOUS` and no extension data, and is named `0` or the current layer,
/// which no layer of the drawing was named; each added line type has no
/// description, the alignment code 65, no elements, a zero total length and no
/// extension data; each added text style has a zero text height and a width
/// factor of one; each added view port has spacings, height and aspect ratio of
/// one, a lens length of 50, the UCS icon setting 3 and 1000 circle sides. The
/// layers added get the handles that follow the drawing's last one, in turn.
pub proof fn normalize_adds_default_items_law(d: DrawingModel)
    ensures
        ({
            let n = normalized_drawing(d);
            let zero = Real::Finite { negative: false, digits: 0, exponent: 0 };
            let one = Real::Finite { negative: false, digits: 1, exponent: 0 };
            let fifty = Real::Finite { negative: false, digits: 5, exponent: 1 };
            let ones = Vector { x: one, y: one, z: one };
            &&& n.layers.len() >= d.layers.len()
            &&& forall|i: int| 0 <= i < d.layers.len() ==> #[trigger] n.layers[i] == normalized_layer(d.layers[i])
            &&& forall|i: int|
                d.layers.len() <= i < n.layers.len() ==> {
                    let l = #[trigger] n.layers[i];
                    &&& l.is_layer_on
                    &&& l.color == 7
                    &&& l.line_type_name == seq!['C', 'O', 'N', 'T', 'I', 'N', 'U', 'O', 'U', 'S']
                    &&& l.groups == Seq::<GroupModel>::empty()
                    &&& l.handle == handle_after(d.last_handle, (i - d.layers.len() + 1) as nat)
                    &&& (l.name == seq!['0'] || l.name == d.current_layer)
                    &&& forall|k: int| 0 <= k < d.layers.len() ==> d.layers[k].name != l.name
                }
            &&& n.line_types.len() >= d.line_types.len()
            &&& forall|i: int|
                d.line_types.len() <= i < n.line_types.len() ==> {
                    let t = #[trigger] n.line_types[i];
                    &&& t.description == Seq::<char>::empty()
                    &&& t.alignment_code == 65
                    &&& t.element_count == 0
                    &&& t.total_pattern_length == zero
                    &&& t.line_elements == Seq::<ElementModel>::empty()
                    &&& t.groups == Seq::<GroupModel>::empty()
                }
            &&& n.styles.len() >= d.styles.len()
            &&& forall|i: int|
                d.styles.len() <= i < n.styles.len() ==> {
                    let st = #[trigger] n.styles[i];
                    &&& st.text_height == zero
                    &&& st.width_factor == one
                    &&& st.groups == Seq::<GroupModel>::empty()
                }
            &&& n.view_ports.len() >= d.view_ports.len()
            &&& forall|i: int|
                d.view_ports.len() <= i < n.view_ports.len() ==> {
                    let vp = #[trigger] n.view_ports[i];
                    &&& vp.snap_spacing == ones
                    &&& vp.grid_spacing == ones
                    &&& vp.view_height == one
                    &&& vp.view_port_aspect_ratio == one
                    &&& vp.lens_length == fifty
                    &&& vp.ucs_icon == 3
                    &&& vp.circle_sides == 1000
                    &&& vp.groups == Seq::<GroupModel>::empty()
                }
        }),
{
    lemma_small_wholes();
    let n = normalized_drawing(d);
    let layers1 = d.layers.map_values(|l: LayerModel| normalized_layer(l));
    let ln = missing(layer_candidates(d.current_layer), layer_names(layers1));
    lemma_missing(layer_candidates(d.current_layer), layer_names(layers1));
    assert(n.layers == layers1 + new_layers(ln, d.last_handle));
    assert forall|i: int| d.layers.len() <= i < n.layers.len() implies {
        let l = #[trigger] n.layers[i];
        &&& (l.name == seq!['0'] || l.name == d.current_layer)
        &&& forall|k: int| 0 <= k < d.layers.len() ==> d.layers[k].name != l.name
    } by {
        let l = n.layers[i];
        let j = i - d.layers.len();
        assert(l == new_layers(ln, d.last_handle)[j]);
        assert(l.name == ln[j]);
        assert(ln.contains(ln[j]));
        assert(layer_candidates(d.current_layer).contains(l.name));
        assert(!layer_names(layers1).contains(l.name));
        let c = layer_candidates(d.current_layer);
        assert(l.name == seq!['0'] || l.name == d.current_layer) by {
            let k = choose|k: int| 0 <= k < c.len() && c[k] == l.name;
            if d.current_layer.len() > 0 {
                assert(k == 0 || k == 1);
            }
        }
        assert forall|k: int| 0 <= k < d.layers.len() implies d.layers[k].name != l.name by {
            assert(layer_names(layers1)[k] == layers1[k].name);
            assert(layers1[k] == normalized_layer(d.layers[k]));
        }
    }
}

} // verus!
