//! Layout: auto-layout, sizing and position fields in the terms of CSS.

use vstd::prelude::*;

use crate::float::{equal, from_int, lemma_of_zero, minus, over, zero, Dbl, Double};
use crate::json::{
    arr_field, as_bool, as_str, bool_of, double_of, field, field_is, field_text_is, json_list, list_of, num_field, opt,
    opt_double, opt_str, opt_value, put, put_some, str_field, str_of, text_is, text_json, Fields, Json, Object, Value,
};
use crate::simplify::color::{num_or, number_or};
use crate::simplify::grid::{
    absolute, bbox, bounds, build_grid_child_positioning, grid_fields, is_absolute, is_packed_grid, packed, Area, Frame,
};
use crate::simplify::numbers::{hundredths, num, pixel_round, plain_number};
use crate::simplify::style::{css_shorthand, pixels, put_all, put_fields, px, sides};
use crate::strings::{cat3, contains_text, has_part, opt_text, same, trim_text, trimmed};

pub use crate::simplify::grid::compute_grid_child_order;

verus! {

/// Whether a node is a frame: only frames clip their content or not.
pub open spec fn frame(n: Json) -> bool {
    as_bool(field(n, "clipsContent"@)) is Some
}

fn is_frame(n: &Value) -> (r: bool)
    ensures
        r == frame(n@),
{
    bool_of(n.get("clipsContent")).is_some()
}

/// The direction in which a node lays out its children.
#[derive(Clone, Copy, Debug)]
pub enum Flow {
    Row,
    Column,
    Grid,
    Free,
}

/// The flow that a layout mode names.
pub open spec fn mode_flow(mode: Option<Seq<char>>) -> Flow {
    if mode == Some("HORIZONTAL"@) {
        Flow::Row
    } else if mode == Some("VERTICAL"@) {
        Flow::Column
    } else if mode == Some("GRID"@) {
        Flow::Grid
    } else {
        Flow::Free
    }
}

fn mode_flow_of(mode: Option<&str>) -> (r: Flow)
    ensures
        r == mode_flow(opt_str(mode)),
{
    if text_is(mode, "HORIZONTAL") {
        Flow::Row
    } else if text_is(mode, "VERTICAL") {
        Flow::Column
    } else if text_is(mode, "GRID") {
        Flow::Grid
    } else {
        Flow::Free
    }
}

/// The flow of a container, frame or not.
pub open spec fn container_flow(n: Json) -> Flow {
    mode_flow(str_field(n, "layoutMode"@))
}

/// The flow of a node: only frames have one.
pub open spec fn own_flow(n: Json) -> Flow {
    if frame(n) {
        container_flow(n)
    } else {
        Flow::Free
    }
}

fn own_flow_of(n: &Value) -> (r: Flow)
    ensures
        r == own_flow(n@),
{
    if is_frame(n) {
        mode_flow_of(str_of(n.get("layoutMode")))
    } else {
        Flow::Free
    }
}

/// The name of a flow.
pub open spec fn flow_name(f: Flow) -> Seq<char> {
    match f {
        Flow::Row => "row"@,
        Flow::Column => "column"@,
        Flow::Grid => "grid"@,
        Flow::Free => "none"@,
    }
}

fn name_of(f: Flow) -> (r: String)
    ensures
        r@ == flow_name(f),
{
    match f {
        Flow::Row => "row".to_owned(),
        Flow::Column => "column".to_owned(),
        Flow::Grid => "grid".to_owned(),
        Flow::Free => "none".to_owned(),
    }
}

/// Whether a node takes part in the auto-layout of its parent.
pub open spec fn in_flow(n: Json, parent: Option<Json>) -> bool {
    match parent {
        Some(p) => container_flow(p) !is Free && bounds(n) is Some && !absolute(n),
        None => false,
    }
}

fn is_in_auto_layout_flow(n: &Value, parent: Option<&Value>) -> (r: bool)
    ensures
        r == in_flow(n@, opt(parent)),
{
    match parent {
        Some(p) => {
            let auto_laid = match mode_flow_of(str_of(p.get("layoutMode"))) {
                Flow::Free => false,
                _ => true,
            };
            auto_laid && bbox(n).is_some() && !is_absolute(n)
        },
        None => false,
    }
}

// ---------------------------------------------------------------------------
// Containers
// ---------------------------------------------------------------------------

/// The CSS shorthand of a row gap and a column gap; zero gaps are none.
pub open spec fn gaps(row: Option<Dbl>, col: Option<Dbl>) -> Option<Seq<char>> {
    match (row, col) {
        (None, None) => None,
        (Some(r), Some(c)) => if equal(r, zero()) && equal(c, zero()) {
            None
        } else if equal(r, c) {
            Some(pixels(r))
        } else {
            Some(pixels(r) + " "@ + pixels(c))
        },
        (Some(g), None) => if equal(g, zero()) {
            None
        } else {
            Some(pixels(g))
        },
        (None, Some(g)) => if equal(g, zero()) {
            None
        } else {
            Some(pixels(g))
        },
    }
}

fn gap_shorthand(row: Option<Double>, col: Option<Double>) -> (r: Option<String>)
    ensures
        opt_text(r) == gaps(opt_double(row), opt_double(col)),
{
    let z = from_int(0);
    proof {
        lemma_of_zero();
    }
    match (row, col) {
        (None, None) => None,
        (Some(r), Some(c)) => if r.equals(z) && c.equals(z) {
            None
        } else if r.equals(c) {
            Some(px(r))
        } else {
            Some(cat3(px(r).as_str(), " ", px(c).as_str()))
        },
        (Some(g), None) => if g.equals(z) {
            None
        } else {
            Some(px(g))
        },
        (None, Some(g)) => if g.equals(z) {
            None
        } else {
            Some(px(g))
        },
    }
}

/// The gap between the lines of a container that wraps.
pub open spec fn line_gap(n: Json) -> Option<Dbl> {
    if field_is(n, "layoutWrap"@, "WRAP"@) {
        num_field(n, "counterAxisSpacing"@)
    } else {
        None
    }
}

/// The gap between the items of a container, unless it spreads them.
pub open spec fn item_gap(n: Json) -> Option<Dbl> {
    if field_is(n, "primaryAxisAlignItems"@, "SPACE_BETWEEN"@) {
        None
    } else {
        num_field(n, "itemSpacing"@)
    }
}

/// The gap of a row or a column.
pub open spec fn flex_gap(n: Json, flow: Flow) -> Option<Seq<char>> {
    if flow is Row {
        gaps(line_gap(n), item_gap(n))
    } else {
        gaps(item_gap(n), line_gap(n))
    }
}

fn build_flex_gap(n: &Value, flow: Flow) -> (r: Option<String>)
    ensures
        opt_text(r) == flex_gap(n@, flow),
{
    let items = if field_text_is(n, "primaryAxisAlignItems", "SPACE_BETWEEN") {
        None
    } else {
        double_of(n.get("itemSpacing"))
    };
    let lines = if field_text_is(n, "layoutWrap", "WRAP") {
        double_of(n.get("counterAxisSpacing"))
    } else {
        None
    };
    match flow {
        Flow::Row => gap_shorthand(lines, items),
        _ => gap_shorthand(items, lines),
    }
}

/// The CSS name of an alignment along the axis of a container.
pub open spec fn justify(a: Option<Seq<char>>) -> Option<Seq<char>> {
    if a == Some("MAX"@) {
        Some("flex-end"@)
    } else if a == Some("CENTER"@) {
        Some("center"@)
    } else if a == Some("SPACE_BETWEEN"@) {
        Some("space-between"@)
    } else {
        None
    }
}

fn convert_justify(a: Option<&str>) -> (r: Option<String>)
    ensures
        opt_text(r) == justify(opt_str(a)),
{
    if text_is(a, "MAX") {
        Some("flex-end".to_owned())
    } else if text_is(a, "CENTER") {
        Some("center".to_owned())
    } else if text_is(a, "SPACE_BETWEEN") {
        Some("space-between".to_owned())
    } else {
        None
    }
}

/// The CSS name of the alignment of a node in its parent.
pub open spec fn self_align(a: Option<Seq<char>>) -> Option<Seq<char>> {
    if a == Some("MAX"@) {
        Some("flex-end"@)
    } else if a == Some("CENTER"@) {
        Some("center"@)
    } else if a == Some("STRETCH"@) {
        Some("stretch"@)
    } else {
        None
    }
}

fn convert_self_align(a: Option<&str>) -> (r: Option<String>)
    ensures
        opt_text(r) == self_align(opt_str(a)),
{
    if text_is(a, "MAX") {
        Some("flex-end".to_owned())
    } else if text_is(a, "CENTER") {
        Some("center".to_owned())
    } else if text_is(a, "STRETCH") {
        Some("stretch".to_owned())
    } else {
        None
    }
}

/// The field with the sizing across the axis of a container.
pub open spec fn cross_sizing(flow: Flow) -> Seq<char> {
    if flow is Row {
        "layoutSizingVertical"@
    } else {
        "layoutSizingHorizontal"@
    }
}

/// Whether a container has children, and all those in its flow fill it across
/// its axis.
pub open spec fn all_stretch(n: Json, flow: Flow) -> bool {
    match arr_field(n, "children"@) {
        Some(kids) => kids.len() > 0 && (forall|i: int|
            0 <= i < kids.len() ==> absolute(#[trigger] kids[i]) || field_is(kids[i], cross_sizing(flow), "FILL"@)),
        None => false,
    }
}

/// The CSS name of the alignment across the axis of a container.
pub open spec fn align_items(n: Json, flow: Flow) -> Option<Seq<char>> {
    let a = str_field(n, "counterAxisAlignItems"@);
    if all_stretch(n, flow) {
        Some("stretch"@)
    } else if a == Some("MAX"@) {
        Some("flex-end"@)
    } else if a == Some("CENTER"@) {
        Some("center"@)
    } else if a == Some("BASELINE"@) {
        Some("baseline"@)
    } else {
        None
    }
}

fn do_all_stretch(n: &Value, flow: Flow) -> (r: bool)
    ensures
        r == all_stretch(n@, flow),
{
    let cross: &str = match flow {
        Flow::Row => "layoutSizingVertical",
        _ => "layoutSizingHorizontal",
    };
    match list_of(n.get("children")) {
        Some(kids) => {
            let ghost m = json_list(kids@);
            let mut i: usize = 0;
            while i < kids.len()
                invariant
                    i <= kids.len(),
                    m == json_list(kids@),
                    arr_field(n@, "children"@) == Some(m),
                    cross@ == cross_sizing(flow),
                    forall|k: int| 0 <= k < i ==> absolute(#[trigger] m[k]) || field_is(m[k], cross@, "FILL"@),
                decreases kids.len() - i,
            {
                if !is_absolute(&kids[i]) && !field_text_is(&kids[i], cross, "FILL") {
                    assert(!absolute(m[i as int]) && !field_is(m[i as int], cross@, "FILL"@));
                    return false;
                }
                i += 1;
            }
            kids.len() > 0
        },
        None => false,
    }
}

fn convert_align_items(n: &Value, flow: Flow) -> (r: Option<String>)
    ensures
        opt_text(r) == align_items(n@, flow),
{
    let a = str_of(n.get("counterAxisAlignItems"));
    if do_all_stretch(n, flow) {
        Some("stretch".to_owned())
    } else if text_is(a, "MAX") {
        Some("flex-end".to_owned())
    } else if text_is(a, "CENTER") {
        Some("center".to_owned())
    } else if text_is(a, "BASELINE") {
        Some("baseline".to_owned())
    } else {
        None
    }
}

/// The axes along which a frame scrolls.
pub open spec fn overflow(n: Json) -> Option<Json> {
    match str_field(n, "overflowDirection"@) {
        Some(d) => {
            let x = has_part(d, "HORIZONTAL"@);
            let y = has_part(d, "VERTICAL"@);
            if x && y {
                Some(Json::Arr(seq![Json::Str("x"@), Json::Str("y"@)]))
            } else if x {
                Some(Json::Arr(seq![Json::Str("x"@)]))
            } else if y {
                Some(Json::Arr(seq![Json::Str("y"@)]))
            } else {
                None
            }
        },
        None => None,
    }
}

fn find_overflow(n: &Value) -> (r: Option<Value>)
    ensures
        opt_value(r) == overflow(n@),
{
    match str_of(n.get("overflowDirection")) {
        Some(d) => {
            let x = contains_text(d, "HORIZONTAL");
            let y = contains_text(d, "VERTICAL");
            let mut axes: Vec<Value> = Vec::new();
            if x {
                axes.push(Value::String("x".to_owned()));
            }
            if y {
                axes.push(Value::String("y".to_owned()));
            }
            proof {
                let m = json_list(axes@);
                if x && y {
                    assert(m =~= seq![Json::Str("x"@), Json::Str("y"@)]);
                } else if x {
                    assert(m =~= seq![Json::Str("x"@)]);
                } else if y {
                    assert(m =~= seq![Json::Str("y"@)]);
                }
            }
            if x || y {
                Some(Value::Array(axes))
            } else {
                None
            }
        },
        None => None,
    }
}

/// The padding of a frame.
pub open spec fn padding(n: Json) -> Option<Seq<char>> {
    sides(
        num_or(n, "paddingTop"@, zero()),
        num_or(n, "paddingRight"@, zero()),
        num_or(n, "paddingBottom"@, zero()),
        num_or(n, "paddingLeft"@, zero()),
    )
}

fn find_padding(n: &Value) -> (r: Option<String>)
    ensures
        opt_text(r) == padding(n@),
{
    let z = from_int(0);
    proof {
        lemma_of_zero();
    }
    css_shorthand(
        number_or(n, "paddingTop", z),
        number_or(n, "paddingRight", z),
        number_or(n, "paddingBottom", z),
        number_or(n, "paddingLeft", z),
    )
}

/// A text field without outer white space, unless nothing is left of it.
pub open spec fn trimmed_field(n: Json, k: Seq<char>) -> Option<Seq<char>> {
    match str_field(n, k) {
        Some(s) => if trimmed(s) == ""@ {
            None
        } else {
            Some(trimmed(s))
        },
        None => None,
    }
}

fn find_trimmed(n: &Value, k: &str) -> (r: Option<String>)
    ensures
        opt_text(r) == trimmed_field(n@, k@),
{
    match str_of(n.get(k)) {
        Some(s) => {
            let t = trim_text(s);
            if same(t.as_str(), "") {
                None
            } else {
                Some(t)
            }
        },
        None => None,
    }
}

/// The fields of a grid container.
pub open spec fn grid_container(o: Fields, n: Json) -> Fields {
    let a = put_some(o, "gridTemplateColumns"@, text_json(trimmed_field(n, "gridColumnsSizing"@)));
    let b = put_some(a, "gridTemplateRows"@, text_json(trimmed_field(n, "gridRowsSizing"@)));
    put_some(b, "gap"@, text_json(gaps(num_field(n, "gridRowGap"@), num_field(n, "gridColumnGap"@))))
}

/// The fields of a row or a column.
pub open spec fn flex_container(o: Fields, n: Json, flow: Flow) -> Fields {
    let a = put_some(o, "justifyContent"@, text_json(justify(str_field(n, "primaryAxisAlignItems"@))));
    let b = put_some(a, "alignItems"@, text_json(align_items(n, flow)));
    let c = if field_is(n, "layoutWrap"@, "WRAP"@) {
        put(b, "wrap"@, Json::Bool(true))
    } else {
        b
    };
    put_some(c, "gap"@, text_json(flex_gap(n, flow)))
}

/// The fields of a node as a container.
pub open spec fn container_fields(n: Json) -> Fields {
    let flow = own_flow(n);
    let a = put(Fields::empty(), "mode"@, Json::Str(flow_name(flow)));
    if !frame(n) {
        a
    } else {
        let b = put_some(a, "overflowScroll"@, overflow(n));
        if flow is Free {
            b
        } else {
            let c = put_some(b, "alignSelf"@, text_json(self_align(str_field(n, "layoutAlign"@))));
            let d = put_some(c, "padding"@, text_json(padding(n)));
            if flow is Grid {
                grid_container(d, n)
            } else {
                flex_container(d, n, flow)
            }
        }
    }
}

fn build_container(n: &Value) -> (r: Object)
    ensures
        r@ == container_fields(n@),
{
    let flow = own_flow_of(n);
    let mut out = Object::new();
    out.put("mode", Value::String(name_of(flow)));
    if !is_frame(n) {
        return out;
    }
    out.put_some("overflowScroll", find_overflow(n));
    if let Flow::Free = flow {
        return out;
    }
    out.put_text("alignSelf", convert_self_align(str_of(n.get("layoutAlign"))));
    out.put_text("padding", find_padding(n));
    if let Flow::Grid = flow {
        out.put_text("gridTemplateColumns", find_trimmed(n, "gridColumnsSizing"));
        out.put_text("gridTemplateRows", find_trimmed(n, "gridRowsSizing"));
        out.put_text("gap", gap_shorthand(double_of(n.get("gridRowGap")), double_of(n.get("gridColumnGap"))));
    } else {
        out.put_text("justifyContent", convert_justify(str_of(n.get("primaryAxisAlignItems"))));
        out.put_text("alignItems", convert_align_items(n, flow));
        if field_text_is(n, "layoutWrap", "WRAP") {
            out.put("wrap", Value::Bool(true));
        }
        out.put_text("gap", build_flex_gap(n, flow));
    }
    out
}

// ---------------------------------------------------------------------------
// Sizing
// ---------------------------------------------------------------------------

/// The word for the sizing on one axis. A root of fixed size takes its size
/// from where it is put.
pub open spec fn size_word(s: Option<Seq<char>>, root: bool) -> Option<Seq<char>> {
    if s == Some("FIXED"@) {
        Some(
            if root {
                "contextual"@
            } else {
                "fixed"@
            },
        )
    } else if s == Some("FILL"@) {
        Some("fill"@)
    } else if s == Some("HUG"@) {
        Some("hug"@)
    } else {
        None
    }
}

fn convert_sizing(s: Option<&str>, root: bool) -> (r: Option<String>)
    ensures
        opt_text(r) == size_word(opt_str(s), root),
{
    if text_is(s, "FIXED") {
        Some(
            if root {
                "contextual".to_owned()
            } else {
                "fixed".to_owned()
            },
        )
    } else if text_is(s, "FILL") {
        Some("fill".to_owned())
    } else if text_is(s, "HUG") {
        Some("hug".to_owned())
    } else {
        None
    }
}

/// The size that a root of fixed size was designed with.
pub open spec fn designed(s: Option<Seq<char>>, root: bool, size: Dbl) -> Option<Seq<char>> {
    if root && s == Some("FIXED"@) {
        Some(pixels(hundredths(size)))
    } else {
        None
    }
}

fn find_designed(s: Option<&str>, root: bool, size: Double) -> (r: Option<String>)
    ensures
        opt_text(r) == designed(opt_str(s), root, size@),
{
    if root && text_is(s, "FIXED") {
        Some(px(pixel_round(size)))
    } else {
        None
    }
}

/// The fields with the sizing of a node.
pub open spec fn sizing_fields(o: Fields, n: Json, root: bool, area: Area) -> Fields {
    let h = str_field(n, "layoutSizingHorizontal"@);
    let v = str_field(n, "layoutSizingVertical"@);
    let a = put_some(o, "designedWidth"@, text_json(designed(h, root, area.w)));
    let b = put_some(a, "designedHeight"@, text_json(designed(v, root, area.h)));
    let words = put_some(
        put_some(Fields::empty(), "horizontal"@, text_json(size_word(h, root))),
        "vertical"@,
        text_json(size_word(v, root)),
    );
    put(b, "sizing"@, Json::Obj(words))
}

fn put_sizing(out: &mut Object, n: &Value, root: bool, area: &Frame)
    ensures
        final(out)@ == sizing_fields(old(out)@, n@, root, area@),
{
    let h = str_of(n.get("layoutSizingHorizontal"));
    let v = str_of(n.get("layoutSizingVertical"));
    out.put_text("designedWidth", find_designed(h, root, area.w));
    out.put_text("designedHeight", find_designed(v, root, area.h));
    let mut words = Object::new();
    words.put_text("horizontal", convert_sizing(h, root));
    words.put_text("vertical", convert_sizing(v, root));
    out.put("sizing", Value::Object(words));
}

// ---------------------------------------------------------------------------
// Position
// ---------------------------------------------------------------------------

/// The place of a node in its parent.
pub open spec fn location(n: Area, p: Area) -> Json {
    Json::Obj(
        put(
            put(Fields::empty(), "x"@, plain_number(hundredths(minus(n.x, p.x)))),
            "y"@,
            plain_number(hundredths(minus(n.y, p.y))),
        ),
    )
}

/// The fields of a node that its parent does not place.
pub open spec fn position_fields(o: Fields, n: Json, p: Json, area: Area) -> Fields {
    if (frame(p) || bounds(p) is Some) && !in_flow(n, Some(p)) {
        let a = if absolute(n) {
            put(o, "position"@, Json::Str("absolute"@))
        } else {
            o
        };
        match bounds(p) {
            Some(b) => put(a, "locationRelativeToParent"@, location(area, b)),
            None => a,
        }
    } else {
        o
    }
}

fn put_position(out: &mut Object, n: &Value, p: &Value, area: &Frame)
    ensures
        final(out)@ == position_fields(old(out)@, n@, p@, area@),
{
    let outer = bbox(p);
    if (is_frame(p) || outer.is_some()) && !is_in_auto_layout_flow(n, Some(p)) {
        if is_absolute(n) {
            out.put_str("position", "absolute");
        }
        match outer {
            Some(b) => {
                let mut place = Object::new();
                place.put("x", num(area.x.minus(b.x)));
                place.put("y", num(area.y.minus(b.y)));
                out.put("locationRelativeToParent", Value::Object(place));
            },
            None => {},
        }
    }
}

/// Whether the children of a container fill its grid; without children it is
/// full.
pub open spec fn full_grid(p: Json) -> bool {
    match arr_field(p, "children"@) {
        Some(kids) => packed(kids),
        None => true,
    }
}

/// The fields of a node in a grid.
pub open spec fn placement_fields(o: Fields, n: Json, p: Json) -> Fields {
    if field_is(p, "layoutMode"@, "GRID"@) && !absolute(n) {
        put_all(o, grid_fields(n, p, full_grid(p)))
    } else {
        o
    }
}

fn put_placement(out: &mut Object, n: &Value, p: &Value)
    ensures
        final(out)@ == placement_fields(old(out)@, n@, p@),
{
    if field_text_is(p, "layoutMode", "GRID") && !is_absolute(n) {
        let full = match list_of(p.get("children")) {
            Some(kids) => is_packed_grid(kids),
            None => true,
        };
        put_fields(out, &build_grid_child_positioning(n, p, full));
    }
}

// ---------------------------------------------------------------------------
// Dimensions
// ---------------------------------------------------------------------------

/// The flow that decides which dimensions of a node are shown.
pub open spec fn child_flow(n: Json, parent: Option<Json>) -> Flow {
    match parent {
        Some(p) => if container_flow(p) is Grid {
            Flow::Grid
        } else if in_flow(n, parent) && frame(p) {
            container_flow(p)
        } else if own_flow(n) is Grid {
            Flow::Free
        } else {
            own_flow(n)
        },
        None => if own_flow(n) is Grid {
            Flow::Free
        } else {
            own_flow(n)
        },
    }
}

fn resolve_child_axis(n: &Value, parent: Option<&Value>) -> (r: Flow)
    ensures
        r == child_flow(n@, opt(parent)),
{
    if let Some(p) = parent {
        let outer = mode_flow_of(str_of(p.get("layoutMode")));
        if let Flow::Grid = outer {
            return Flow::Grid;
        }
        if is_in_auto_layout_flow(n, parent) && is_frame(p) {
            return outer;
        }
    }
    match own_flow_of(n) {
        Flow::Grid => Flow::Free,
        f => f,
    }
}

/// Whether a node grows along the axis of its parent.
pub open spec fn grows(n: Json) -> bool {
    num_field(n, "layoutGrow"@) matches Some(g) && !equal(g, zero())
}

fn does_grow(n: &Value) -> (r: bool)
    ensures
        r == grows(n@),
{
    let z = from_int(0);
    proof {
        lemma_of_zero();
    }
    match double_of(n.get("layoutGrow")) {
        Some(g) => !g.equals(z),
        None => false,
    }
}

/// Whether a node is stretched, across and down.
pub open spec fn stretched(n: Json, flow: Flow) -> (bool, bool) {
    let fills = field_is(n, "layoutAlign"@, "STRETCH"@);
    match flow {
        Flow::Grid => (
            field_is(n, "layoutSizingHorizontal"@, "FILL"@),
            field_is(n, "layoutSizingVertical"@, "FILL"@),
        ),
        Flow::Row => (grows(n), fills),
        Flow::Column => (fills, grows(n)),
        Flow::Free => (false, false),
    }
}

fn child_stretch(n: &Value, flow: Flow) -> (r: (bool, bool))
    ensures
        r == stretched(n@, flow),
{
    let fills = field_text_is(n, "layoutAlign", "STRETCH");
    match flow {
        Flow::Grid => (
            field_text_is(n, "layoutSizingHorizontal", "FILL"),
            field_text_is(n, "layoutSizingVertical", "FILL"),
        ),
        Flow::Row => (does_grow(n), fills),
        Flow::Column => (fills, does_grow(n)),
        Flow::Free => (false, false),
    }
}

/// Whether a dimension with this sizing is shown.
pub open spec fn shown(s: Option<Seq<char>>, flow: Flow) -> bool {
    s == Some("FIXED"@) || (s is None && !(flow is Row || flow is Column))
}

fn should_emit(s: Option<&str>, flow: Flow) -> (r: bool)
    ensures
        r == shown(opt_str(s), flow),
{
    text_is(s, "FIXED") || (s.is_none() && match flow {
        Flow::Row => false,
        Flow::Column => false,
        _ => true,
    })
}

/// The dimensions of a node that are shown.
pub open spec fn dimensions(n: Json, flow: Flow, area: Area) -> Fields {
    let (across, down) = stretched(n, flow);
    let none = Fields::empty();
    let a = if !across && shown(str_field(n, "layoutSizingHorizontal"@), flow) {
        put(none, "width"@, plain_number(hundredths(area.w)))
    } else {
        none
    };
    let b = if !down && shown(str_field(n, "layoutSizingVertical"@), flow) {
        put(a, "height"@, plain_number(hundredths(area.h)))
    } else {
        a
    };
    if flow is Column && as_bool(field(n, "preserveRatio"@)) == Some(true) && !equal(area.h, zero()) {
        put(b, "aspectRatio"@, plain_number(hundredths(over(area.w, area.h))))
    } else {
        b
    }
}

fn build_dimensions(n: &Value, flow: Flow, area: &Frame) -> (r: Object)
    ensures
        r@ == dimensions(n@, flow, area@),
{
    let z = from_int(0);
    proof {
        lemma_of_zero();
    }
    let (across, down) = child_stretch(n, flow);
    let mut out = Object::new();
    if !across && should_emit(str_of(n.get("layoutSizingHorizontal")), flow) {
        out.put("width", num(area.w));
    }
    if !down && should_emit(str_of(n.get("layoutSizingVertical")), flow) {
        out.put("height", num(area.h));
    }
    let keeps_ratio = match bool_of(n.get("preserveRatio")) {
        Some(b) => b,
        None => false,
    };
    let column = match flow {
        Flow::Column => true,
        _ => false,
    };
    if column && keeps_ratio && !area.h.equals(z) {
        out.put("aspectRatio", num(area.w.over(area.h)));
    }
    out
}

// ---------------------------------------------------------------------------
// Layout
// ---------------------------------------------------------------------------

/// The layout of a node in its parent.
pub open spec fn layout(n: Json, parent: Option<Json>) -> Fields {
    let a = container_fields(n);
    match bounds(n) {
        None => a,
        Some(area) => {
            let b = sizing_fields(a, n, parent is None, area);
            match parent {
                None => b,
                Some(p) => {
                    let c = placement_fields(position_fields(b, n, p, area), n, p);
                    let d = dimensions(n, child_flow(n, parent), area);
                    if d.len() == 0 {
                        c
                    } else {
                        put(c, "dimensions"@, Json::Obj(d))
                    }
                },
            }
        },
    }
}

/// The layout of a node: what it is as a container, and, where it has a box,
/// how it is sized and placed in its parent.
pub fn build_simplified_layout(n: &Value, parent: Option<&Value>) -> (r: Object)
    ensures
        r@ == layout(n@, opt(parent)),
{
    let mut out = build_container(n);
    let area = match bbox(n) {
        Some(a) => a,
        None => return out,
    };
    put_sizing(&mut out, n, parent.is_none(), &area);
    if let Some(p) = parent {
        put_position(&mut out, n, p, &area);
        put_placement(&mut out, n, p);
        let dims = build_dimensions(n, resolve_child_axis(n, parent), &area);
        if !dims.is_empty() {
            out.put("dimensions", Value::Object(dims));
        }
    }
    out
}

} // verus!
