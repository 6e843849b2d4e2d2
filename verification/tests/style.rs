use figma_framelink_cli::float::Double;
use figma_framelink_cli::json::{object_text, to_text, Number, Object, Value};
use figma_framelink_cli::simplify::component::{
    simplify_component_properties, simplify_property_definitions, simplify_property_references,
    strip_property_name_suffix,
};
use figma_framelink_cli::simplify::effects::build_simplified_effects;
use figma_framelink_cli::simplify::gradient::{css_turn, gradient_directions, Turn};
use figma_framelink_cli::simplify::layout::{build_simplified_layout, compute_grid_child_order};
use figma_framelink_cli::simplify::style::{
    build_simplified_strokes, convert_color, css_shorthand, flatten_solid_fills, format_rgba, parse_paint,
    transform_hash,
};

fn value(v: &serde_json::Value) -> Value {
    match v {
        serde_json::Value::Null => Value::Null,
        serde_json::Value::Bool(b) => Value::Bool(*b),
        serde_json::Value::Number(n) => Value::Number(if let Some(u) = n.as_u64() {
            Number::PosInt(u)
        } else if let Some(i) = n.as_i64() {
            Number::NegInt(i)
        } else {
            match Double::from_bits(n.as_f64().unwrap().to_bits()) {
                Double::Finite(f) => Number::Float(f),
                _ => unreachable!(),
            }
        }),
        serde_json::Value::String(s) => Value::String(s.clone()),
        serde_json::Value::Array(a) => Value::Array(a.iter().map(value).collect()),
        serde_json::Value::Object(o) => {
            let mut out = Object::new();
            for (k, v) in o {
                out.insert(k.clone(), value(v));
            }
            Value::Object(out)
        }
    }
}

fn parse(s: &str) -> Value {
    value(&serde_json::from_str(s).unwrap())
}

fn double(x: f64) -> Double {
    Double::from_bits(x.to_bits())
}

fn float(x: Double) -> f64 {
    f64::from_bits(x.to_bits())
}

/// The angles of the gradients in a value, as `atan2` gives them.
fn turns(v: &Value) -> Vec<Turn> {
    gradient_directions(v)
        .into_iter()
        .map(|(rise, run)| css_turn(rise, run, double(float(rise).atan2(float(run)))))
        .collect()
}

fn paint(s: &str, has_children: bool) -> String {
    let p = parse(s);
    let list = parse(&format!(r#"{{"fills": [{s}]}}"#));
    to_text(&parse_paint(&p, has_children, &turns(&list)))
}

#[test]
fn transform_hash_matches_upstream() {
    let t = parse("[[1.0, 0.0, 0.0], [0.0, 0.9960304498672485, 0.0019847655203193426]]");
    assert_eq!(transform_hash(&t), "2ed677");
}

#[test]
fn colors_are_hex_or_rgba() {
    let c = parse(r#"{"r": 1.0, "g": 0.5, "b": 0.0, "a": 0.8}"#);
    let (hex, opacity) = convert_color(&c, double(0.5));
    assert_eq!(hex, "#FF8000");
    assert_eq!(float(opacity), 0.4);
    assert_eq!(format_rgba(&c, double(0.5)), "rgba(255, 128, 0, 0.4)");
    assert_eq!(paint(r#"{"type": "SOLID", "color": {"r": 0, "g": 0, "b": 1, "a": 1}}"#, false), "\"#0000FF\"");
    assert_eq!(
        paint(r#"{"type": "SOLID", "opacity": 0.25, "color": {"r": 0, "g": 0, "b": 1, "a": 1}}"#, false),
        "\"rgba(0, 0, 255, 0.25)\""
    );
}

#[test]
fn stacked_solid_fills_are_one_color() {
    let paints = |s: &str| match parse(s) {
        Value::Array(a) => a,
        _ => unreachable!(),
    };
    let white = r#"{"type": "SOLID", "color": {"r": 1, "g": 1, "b": 1, "a": 1}}"#;
    let half = r#"{"type": "SOLID", "opacity": 0.5, "color": {"r": 0, "g": 0, "b": 0, "a": 1}}"#;
    let image = r#"{"type": "IMAGE", "imageRef": "x"}"#;
    assert_eq!(flatten_solid_fills(&paints(&format!("[{white},{half}]"))).as_deref(), Some("#808080"));
    assert_eq!(flatten_solid_fills(&paints(&format!("[{half},{white}]"))).as_deref(), Some("#FFFFFF"));
    assert_eq!(flatten_solid_fills(&paints(&format!("[{half},{half}]"))).as_deref(), Some("rgba(0, 0, 0, 0.75)"));
    assert_eq!(flatten_solid_fills(&paints(&format!("[{white}]"))).as_deref(), Some("#FFFFFF"));
    assert_eq!(flatten_solid_fills(&vec![]), None);
    assert_eq!(flatten_solid_fills(&paints(&format!("[{white},{image}]"))), None);
}

#[test]
fn gradients_become_css() {
    let linear = r#"{
        "type": "GRADIENT_LINEAR",
        "gradientHandlePositions": [{"x": 0.0, "y": 0.5}, {"x": 1.0, "y": 0.5}, {"x": 0.0, "y": 1.0}],
        "gradientStops": [
            {"position": 0.0, "color": {"r": 1, "g": 0, "b": 0, "a": 1}},
            {"position": 1.0, "color": {"r": 0, "g": 0, "b": 1, "a": 0.5}}
        ]
    }"#;
    assert_eq!(paint(linear, false), r#"{"type":"GRADIENT_LINEAR","gradient":"linear-gradient(90deg, rgba(255, 0, 0, 1) 0%, rgba(0, 0, 255, 0.5) 100%)"}"#);
    let radial = linear.replace("GRADIENT_LINEAR", "GRADIENT_RADIAL");
    assert_eq!(paint(&radial, false), r#"{"type":"GRADIENT_RADIAL","gradient":"radial-gradient(circle at 0% 50%, rgba(255, 0, 0, 1) 0%, rgba(0, 0, 255, 0.5) 100%)"}"#);
    let angular = linear.replace("GRADIENT_LINEAR", "GRADIENT_ANGULAR");
    assert_eq!(paint(&angular, false), r#"{"type":"GRADIENT_ANGULAR","gradient":"conic-gradient(from 90deg at 0% 50%, rgba(255, 0, 0, 1) 0%, rgba(0, 0, 255, 0.5) 100%)"}"#);
    let diamond = linear.replace("GRADIENT_LINEAR", "GRADIENT_DIAMOND");
    assert_eq!(paint(&diamond, false), r#"{"type":"GRADIENT_DIAMOND","gradient":"radial-gradient(ellipse at 0% 50%, rgba(255, 0, 0, 1) 0%, rgba(0, 0, 255, 0.5) 100%)"}"#);
}

#[test]
fn image_fills_tell_how_they_are_downloaded() {
    assert_eq!(paint(r#"{"type": "IMAGE", "imageRef": "abc", "scaleMode": "FILL"}"#, true), r#"{"type":"IMAGE","imageRef":"abc","scaleMode":"FILL","backgroundSize":"cover","backgroundRepeat":"no-repeat","isBackground":true,"imageDownloadArguments":{"needsCropping":false,"requiresImageDimensions":false}}"#);
    assert_eq!(paint(r#"{"type": "IMAGE", "imageRef": "abc", "scaleMode": "FIT"}"#, false), r#"{"type":"IMAGE","imageRef":"abc","scaleMode":"FIT","objectFit":"contain","isBackground":false,"imageDownloadArguments":{"needsCropping":false,"requiresImageDimensions":false}}"#);
    assert_eq!(
        paint(r#"{"type": "IMAGE", "imageRef": "abc", "gifRef": "g", "scaleMode": "TILE", "scalingFactor": 0.5}"#, true),
        r#"{"type":"IMAGE","imageRef":"abc","gifRef":"g","scaleMode":"TILE","scalingFactor":0.5,"backgroundRepeat":"repeat","backgroundSize":"calc(var(--original-width) * 0.5) calc(var(--original-height) * 0.5)","isBackground":true,"imageDownloadArguments":{"needsCropping":false,"requiresImageDimensions":true}}"#
    );
    assert_eq!(
        paint(
            r#"{"type": "IMAGE", "imageRef": "abc", "scaleMode": "STRETCH", "imageTransform": [[0.5, 0.0, 0.25], [0.0, 1.0, 0.0]]}"#,
            false
        ),
        r#"{"type":"IMAGE","imageRef":"abc","scaleMode":"STRETCH","objectFit":"fill","isBackground":false,"imageDownloadArguments":{"needsCropping":true,"requiresImageDimensions":false,"cropTransform":[[0.5,0,0.25],[0,1,0]],"filenameSuffix":"38faae"}}"#
    );
    assert_eq!(paint(r#"{"type": "PATTERN", "sourceNodeId": "1:2", "tileType": "RECTANGULAR", "spacing": {"x": 0.0, "y": 2.5}}"#, false), r#"{"type":"PATTERN","patternSource":{"type":"IMAGE-PNG","nodeId":"1:2"},"backgroundRepeat":"repeat","backgroundSize":"100%","backgroundPosition":"left top"}"#);
    assert_eq!(paint(r#"{"type": "VIDEO"}"#, false), "\"#000000\"");
}

#[test]
fn strokes_have_weights_and_dashes() {
    let n = parse(
        r#"{
        "strokes": [{"type": "SOLID", "color": {"r": 0, "g": 0, "b": 0, "a": 1}},
                    {"type": "SOLID", "visible": false, "color": {"r": 1, "g": 0, "b": 0, "a": 1}}],
        "strokeWeight": 2.0, "strokeDashes": [4, 2.0], "strokeAlign": "INSIDE"
    }"#,
    );
    let s = build_simplified_strokes(&n, false, &vec![]);
    assert_eq!(to_text(&Value::Array(s.colors)), "[\"#000000\"]");
    assert_eq!(s.stroke_weight.as_deref(), Some("2px"));
    assert_eq!(to_text(&Value::Array(s.stroke_dashes.unwrap())), "[4,2]");
    assert_eq!(s.stroke_weights.as_deref(), None);
    assert_eq!(s.stroke_align.as_deref(), None);
    let n = parse(r#"{"strokes": [{"type": "SOLID"}], "individualStrokeWeights": {"top": 1, "right": 2, "bottom": 1, "left": 2}}"#);
    assert_eq!(build_simplified_strokes(&n, false, &vec![]).stroke_weight.as_deref(), Some("1px 2px"));
}

#[test]
fn shorthands_are_as_short_as_can_be() {
    let short = |a: f64, b: f64, c: f64, d: f64| css_shorthand(double(a), double(b), double(c), double(d));
    assert_eq!(short(0.0, 0.0, 0.0, 0.0), None);
    assert_eq!(short(4.0, 4.0, 4.0, 4.0).as_deref(), Some("4px"));
    assert_eq!(short(4.0, 2.5, 4.0, 2.5).as_deref(), Some("4px 2.5px"));
    assert_eq!(short(1.0, 2.0, 3.0, 2.0).as_deref(), Some("1px 2px 3px"));
    assert_eq!(short(1.0, 2.0, 3.0, 4.0).as_deref(), Some("1px 2px 3px 4px"));
}

#[test]
fn effects_become_css() {
    let n = parse(
        r#"{"effects": [
        {"type": "DROP_SHADOW", "visible": true, "radius": 4.0, "spread": 1.0, "offset": {"x": 0.0, "y": 2.0}, "color": {"r": 0, "g": 0, "b": 0, "a": 0.25}},
        {"type": "INNER_SHADOW", "radius": 3.5, "offset": {"x": 1.0, "y": -1.0}, "color": {"r": 1, "g": 1, "b": 1, "a": 1}},
        {"type": "LAYER_BLUR", "radius": 8.0},
        {"type": "BACKGROUND_BLUR", "radius": 10.0},
        {"type": "LAYER_BLUR", "visible": false, "radius": 80.0}
    ]}"#,
    );
    assert_eq!(object_text(&build_simplified_effects(&n)), r#"{"boxShadow":"0px 2px 4px 1px rgba(0, 0, 0, 0.25), inset 1px -1px 3.5px 0px rgba(255, 255, 255, 1)","filter":"blur(4px)","backdropFilter":"blur(5px)"}"#);
    let t = parse(r#"{"type": "TEXT", "effects": [{"type": "DROP_SHADOW", "radius": 4.0, "offset": {"x": 0.0, "y": 2.0}, "color": {"r": 0, "g": 0, "b": 0, "a": 0.25}}]}"#);
    assert_eq!(object_text(&build_simplified_effects(&t)), r#"{"textShadow":"0px 2px 4px 0px rgba(0, 0, 0, 0.25)"}"#);
}

#[test]
fn layouts_are_in_the_terms_of_css() {
    let n = parse(
        r#"{
        "type": "FRAME", "clipsContent": true, "layoutMode": "VERTICAL", "primaryAxisAlignItems": "SPACE_BETWEEN",
        "counterAxisAlignItems": "CENTER", "paddingTop": 16.0, "paddingRight": 8.0, "paddingBottom": 16.0,
        "paddingLeft": 8.0, "itemSpacing": 8.0, "layoutSizingHorizontal": "FIXED", "layoutSizingVertical": "HUG",
        "absoluteBoundingBox": {"x": 0.0, "y": 0.0, "width": 800.126, "height": 600.0}
    }"#,
    );
    assert_eq!(object_text(&build_simplified_layout(&n, None)), r#"{"mode":"column","padding":"16px 8px","justifyContent":"space-between","alignItems":"center","designedWidth":"800.13px","sizing":{"horizontal":"contextual","vertical":"hug"}}"#);
    let kid = parse(
        r#"{
        "type": "RECTANGLE", "layoutPositioning": "ABSOLUTE", "layoutSizingHorizontal": "FIXED",
        "layoutSizingVertical": "FIXED", "layoutGrow": 1,
        "absoluteBoundingBox": {"x": 16.0, "y": 56.5, "width": 100.0, "height": 50.0}
    }"#,
    );
    assert_eq!(object_text(&build_simplified_layout(&kid, Some(&n))), r#"{"mode":"none","sizing":{"horizontal":"fixed","vertical":"fixed"},"position":"absolute","locationRelativeToParent":{"x":16,"y":56.5},"dimensions":{"width":100,"height":50}}"#);
    let grid = parse(
        r#"{
        "type": "FRAME", "clipsContent": true, "layoutMode": "GRID", "gridColumnCount": 2, "gridRowCount": 1,
        "gridColumnsSizing": "repeat(2,minmax(0,1fr))", "gridRowsSizing": "100px", "gridRowGap": 4.0, "gridColumnGap": 4.0,
        "absoluteBoundingBox": {"x": 0.0, "y": 0.0, "width": 100.0, "height": 100.0},
        "children": [
            {"id": "b", "gridRowAnchorIndex": 0, "gridColumnAnchorIndex": 1, "gridRowSpan": 1, "gridColumnSpan": 1},
            {"id": "a", "gridRowAnchorIndex": 0, "gridColumnAnchorIndex": 0, "gridRowSpan": 1, "gridColumnSpan": 1}
        ]
    }"#,
    );
    assert_eq!(
        object_text(&build_simplified_layout(&grid, None)),
        r#"{"mode":"grid","gridTemplateColumns":"repeat(2,minmax(0,1fr))","gridTemplateRows":"100px","gap":"4px","sizing":{}}"#
    );
    assert_eq!(compute_grid_child_order(&grid), Some(vec![1, 0]));
    assert_eq!(compute_grid_child_order(&n), None);
}

#[test]
fn component_properties_lose_their_suffixes() {
    assert_eq!(strip_property_name_suffix("Label#12:0"), "Label");
    assert_eq!(strip_property_name_suffix("Size"), "Size");
    let object = |s: &str| match parse(s) {
        Value::Object(o) => o,
        _ => unreachable!(),
    };
    let defs = object(r##"{"Label#12:0": {"type": "TEXT", "defaultValue": "Go"}, "Size": {"type": "VARIANT", "defaultValue": "M", "variantOptions": ["S", "M"]}}"##);
    assert_eq!(object_text(&simplify_property_definitions(&defs)), r#"{"Label":{"type":"text","defaultValue":"Go"}}"#);
    let props = object(r##"{"Label#12:0": {"type": "TEXT", "value": "Stop"}, "Icon#1:2": {"type": "INSTANCE_SWAP", "value": "4:5"}}"##);
    assert_eq!(object_text(&simplify_component_properties(&props)), r#"{"Label":"Stop"}"#);
    let refs = object(r##"{"characters": "Label#12:0", "visible": "Show#1:1"}"##);
    assert_eq!(object_text(&simplify_property_references(&refs)), r#"{"text":"Label","visible":"Show"}"#);
}

#[test]
fn stops_are_sorted_and_placed_on_the_line() {
    let linear = r#"{
        "type": "GRADIENT_LINEAR", "opacity": 0.5,
        "gradientHandlePositions": [{"x": 0.25, "y": 0.0}, {"x": 0.25, "y": 0.5}],
        "gradientStops": [
            {"position": 0.5, "color": {"r": 0, "g": 1, "b": 0, "a": 1}},
            {"position": 0.0, "color": {"r": 1, "g": 0, "b": 0, "a": 1}},
            {"position": 0.5, "color": {"r": 0, "g": 0, "b": 1, "a": 1}}
        ]
    }"#;
    assert_eq!(
        paint(linear, false),
        r#"{"type":"GRADIENT_LINEAR","gradient":"linear-gradient(180deg, rgba(255, 0, 0, 0.5) 0%, rgba(0, 255, 0, 0.5) 25%, rgba(0, 0, 255, 0.5) 25%)"}"#
    );
    let point = r#"{
        "type": "GRADIENT_LINEAR",
        "gradientHandlePositions": [{"x": 0.25, "y": 0.25}, {"x": 0.25, "y": 0.25}],
        "gradientStops": [{"position": 0.5, "color": {"r": 0, "g": 0, "b": 0, "a": 1}}]
    }"#;
    assert_eq!(
        paint(point, false),
        r#"{"type":"GRADIENT_LINEAR","gradient":"linear-gradient(0deg, rgba(0, 0, 0, 1) 50%)"}"#
    );
}

#[test]
fn turns_are_in_degrees() {
    for a in [0.0, 0.5, -0.5, 1.0, std::f64::consts::PI, -std::f64::consts::FRAC_PI_2, 2.2] {
        let t = css_turn(double(1.0), double(2.0), double(a));
        assert_eq!(float(t.degrees), a * 180.0 / std::f64::consts::PI + 90.0);
        assert_eq!((float(t.rise), float(t.run)), (1.0, 2.0));
    }
}

#[test]
fn opaque_paints_hide_what_is_below() {
    let solid = |r: &str, a: &str| {
        format!(r#"{{"type": "SOLID", "opacity": {a}, "color": {{"r": {r}, "g": 0.2, "b": -0.0, "a": 1}}}}"#)
    };
    let stack = |s: &[String]| match parse(&format!("[{}]", s.join(","))) {
        Value::Array(a) => flatten_solid_fills(&a),
        _ => None,
    };
    let top = solid("0.7", "1");
    let alone = stack(&[top.clone()]);
    assert_eq!(alone.as_deref(), Some("#B33300"));
    assert_eq!(stack(&[solid("0.1", "0.3"), solid("1", "0.9"), top.clone()]), alone);
    assert_eq!(stack(&[solid("0.1", "0"), top]), alone);
}

#[test]
fn grid_children_follow_rows_columns_and_places() {
    let at = |r: u32, c: u32| format!(r#"{{"gridRowAnchorIndex": {r}, "gridColumnAnchorIndex": {c}}}"#);
    let apart = r#"{"layoutPositioning": "ABSOLUTE"}"#.to_string();
    let kids = [at(1, 0), apart, at(0, 1), at(0, 0), at(0, 1)];
    let grid = parse(&format!(r#"{{"type": "FRAME", "layoutMode": "GRID", "children": [{}]}}"#, kids.join(",")));
    assert_eq!(compute_grid_child_order(&grid), Some(vec![3, 1, 2, 4, 0]));
}
