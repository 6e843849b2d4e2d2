use figma_framelink_cli::float::Double;
use figma_framelink_cli::json::{object_text, to_text, Number, Object, Value};
use figma_framelink_cli::serialize::{is_noise_name, lay_out, serialize_design, OutputFormat};
use figma_framelink_cli::simplify::finalize::{count_style_refs, deduplicate_elements, find_element, BodyTable};
use figma_framelink_cli::simplify::registry::find_free_id;
use figma_framelink_cli::simplify::{
    canonical, find_or_create_var, register_inline_style, register_style, simplify_raw, stable_stringify, Ctx,
};

fn value(v: &serde_json::Value) -> Value {
    match v {
        serde_json::Value::Null => Value::Null,
        serde_json::Value::Bool(b) => Value::Bool(*b),
        serde_json::Value::Number(n) => Value::Number(if let Some(u) = n.as_u64() {
            Number::PosInt(u)
        } else if let Some(i) = n.as_i64() {
            Number::NegInt(i)
        } else {
            match Double::from_bits(n.as_f64().unwrap().to_bits()) {
                Double::Finite(f) => Number::Float(f),
                _ => unreachable!(),
            }
        }),
        serde_json::Value::String(s) => Value::String(s.clone()),
        serde_json::Value::Array(a) => Value::Array(a.iter().map(value).collect()),
        serde_json::Value::Object(o) => {
            let mut out = Object::new();
            for (k, v) in o {
                out.insert(k.clone(), value(v));
            }
            Value::Object(out)
        }
    }
}

fn parse(s: &str) -> Value {
    value(&serde_json::from_str(s).unwrap())
}

const FIXTURE: &str = r#"{
    "name": "Test File",
    "document": {
        "children": [
            {
                "id": "1:1",
                "name": "Page 1",
                "type": "CANVAS",
                "children": [
                    {
                        "id": "1:2",
                        "name": "Hero",
                        "type": "FRAME",
                        "visible": true,
                        "clipsContent": true,
                        "layoutMode": "VERTICAL",
                        "primaryAxisAlignItems": "MIN",
                        "counterAxisAlignItems": "CENTER",
                        "paddingTop": 16.0,
                        "paddingRight": 16.0,
                        "paddingBottom": 16.0,
                        "paddingLeft": 16.0,
                        "itemSpacing": 8.0,
                        "layoutSizingHorizontal": "FIXED",
                        "layoutSizingVertical": "HUG",
                        "absoluteBoundingBox": {"x": 0.0, "y": 0.0, "width": 800.0, "height": 600.0},
                        "fills": [
                            {"type": "SOLID", "visible": true, "color": {"r": 1.0, "g": 1.0, "b": 1.0, "a": 1.0}}
                        ],
                        "children": [
                            {
                                "id": "1:3",
                                "name": "Hello world",
                                "type": "TEXT",
                                "visible": true,
                                "characters": "Hello world",
                                "style": {
                                    "fontFamily": "Inter",
                                    "fontWeight": 700,
                                    "fontSize": 24.0,
                                    "lineHeightPx": 32.0,
                                    "lineHeightUnit": "PIXELS",
                                    "textAlignHorizontal": "LEFT"
                                },
                                "fills": [
                                    {"type": "SOLID", "visible": true, "color": {"r": 0.0, "g": 0.0, "b": 0.0, "a": 1.0}}
                                ],
                                "absoluteBoundingBox": {"x": 16.0, "y": 16.0, "width": 200.0, "height": 32.0},
                                "layoutSizingHorizontal": "FIXED",
                                "layoutSizingVertical": "FIXED",
                                "layoutAlign": "STRETCH"
                            },
                            {
                                "id": "1:4",
                                "name": "Rectangle 12",
                                "type": "RECTANGLE",
                                "visible": true,
                                "fills": [
                                    {"type": "SOLID", "visible": true, "color": {"r": 1.0, "g": 0.0, "b": 0.0, "a": 1.0}, "opacity": 0.5}
                                ],
                                "cornerRadius": 8.0,
                                "absoluteBoundingBox": {"x": 16.0, "y": 56.0, "width": 100.0, "height": 50.0},
                                "layoutSizingHorizontal": "FIXED",
                                "layoutSizingVertical": "FIXED"
                            }
                        ]
                    }
                ]
            }
        ]
    },
    "components": {},
    "componentSets": {},
    "styles": {}
}"#;

fn fixture_file() -> serde_json::Value {
    serde_json::from_str(FIXTURE).unwrap()
}

#[test]
fn pipeline_produces_tree_yaml_json() {
    let design = simplify_raw(&value(&fixture_file()), None, vec![]).unwrap();
    assert_eq!(design.name, "Test File");
    assert_eq!(design.nodes.len(), 1);

    let tree = serialize_design(&design, OutputFormat::Tree);
    assert!(tree.contains("NAME: \"Test File\""), "tree:\n{tree}");
    assert!(tree.contains("NODES:"), "tree:\n{tree}");
    assert!(tree.contains("Hello world"), "tree:\n{tree}");
    // Auto-generated "Rectangle 12" name must be stripped.
    assert!(!tree.contains("Rectangle 12"), "tree:\n{tree}");
    // TEXT layer names are noise and must be stripped.
    assert!(!tree.contains("\"Hello world\" #"), "tree:\n{tree}");
    // Semi-transparent red fill → rgba string.
    assert!(tree.contains("rgba(255, 0, 0, 0.5)"), "tree:\n{tree}");

    let json = serialize_design(&design, OutputFormat::Json);
    let parsed: serde_json::Value = serde_json::from_str(&json).unwrap();
    assert_eq!(
        parsed.pointer("/metadata/name").and_then(|v| v.as_str()),
        Some("Test File")
    );

    let yaml = serialize_design(&design, OutputFormat::Yaml);
    let parsed_y: serde_json::Value = serde_yaml::from_str(&yaml).unwrap();
    assert_eq!(
        parsed_y.pointer("/metadata/name").and_then(|v| v.as_str()),
        Some("Test File")
    );
}

#[test]
fn identical_siblings_dedupe_into_elements() {
    let mut file = fixture_file();
    // Duplicate the rectangle node so two identical bodies exist.
    let rect = file
        .pointer("/document/children/0/children/0/children/1")
        .unwrap()
        .clone();
    let mut rect2 = rect.clone();
    rect2["id"] = serde_json::Value::String("1:5".to_string());
    file.pointer_mut("/document/children/0/children/0/children")
        .unwrap()
        .as_array_mut()
        .unwrap()
        .push(rect2);
    let design = simplify_raw(&value(&file), None, vec![]).unwrap();
    assert!(!design.elements.is_empty(), "expected element dedup");
    let tree = serialize_design(&design, OutputFormat::Tree);
    assert!(tree.contains("template=EL-"), "tree:\n{tree}");
}

#[test]
fn depth_limits_traversal() {
    let design = simplify_raw(&value(&fixture_file()), Some(1), vec![]).unwrap();
    let tree = serialize_design(&design, OutputFormat::Tree);
    // Depth 1: canvas + frame, but no text/rect leaves.
    assert!(!tree.contains("Hello world"), "tree:\n{tree}");
}

#[test]
fn tree_of_the_fixture() {
    let design = simplify_raw(&value(&fixture_file()), None, vec![]).unwrap();
    assert_eq!(
        serialize_design(&design, OutputFormat::Tree),
        r##"NAME: "Test File"
NODES:
[CANVAS] "Page 1" #1:1
  [FRAME] "Hero" #1:2 layout={"mode":"column","padding":"16px","alignItems":"center","gap":"8px","sizing":{"horizontal":"fixed","vertical":"hug"},"dimensions":{"width":800}} fills=["#FFFFFF"]
    [TEXT] #1:3 layout={"mode":"none","sizing":{"horizontal":"fixed","vertical":"fixed"},"dimensions":{"height":32}} fills=["#000000"] textStyle={"fontFamily":"Inter","fontWeight":700,"fontSize":24,"lineHeight":"32px","textAlignHorizontal":"LEFT"} text="Hello world"
    [RECTANGLE] #1:4 layout={"mode":"none","sizing":{"horizontal":"fixed","vertical":"fixed"},"dimensions":{"width":100,"height":50}} fills=["rgba(255, 0, 0, 0.5)"] borderRadius=8px"##
    );
}

#[test]
fn json_of_the_fixture() {
    let design = simplify_raw(&value(&fixture_file()), Some(0), vec![]).unwrap();
    assert_eq!(
        serialize_design(&design, OutputFormat::Json),
        r#"{
  "metadata": {
    "name": "Test File",
    "components": {},
    "componentSets": {}
  },
  "nodes": [
    {
      "id": "1:1",
      "name": "Page 1",
      "type": "CANVAS"
    }
  ],
  "globalVars": {
    "styles": {}
  },
  "elements": {}
}"#
    );
}

#[test]
fn yaml_of_the_fixture() {
    let design = simplify_raw(&value(&fixture_file()), Some(0), vec![]).unwrap();
    assert_eq!(
        serialize_design(&design, OutputFormat::Yaml),
        "metadata:\n  name: Test File\n  components: {}\n  componentSets: {}\nnodes:\n- id: 1:1\n  name: Page 1\n  type: CANVAS\nglobalVars:\n  styles: {}\nelements: {}\n"
    );
}

#[test]
fn node_responses_hold_one_node() {
    let body = parse(
        r#"{"name": "F", "nodes": {"1:2": {"document": {"id": "1:2", "type": "VECTOR", "visible": true},
            "components": {"9:9": {"key": "k", "name": "Button", "componentSetId": "8:8"}}}}}"#,
    );
    let design = simplify_raw(&body, None, vec![]).unwrap();
    assert_eq!(to_text(&design.nodes[0]), r#"{"id":"1:2","name":"","type":"IMAGE-SVG"}"#);
    assert_eq!(
        object_text(&design.components),
        r#"{"9:9":{"id":"9:9","key":"k","name":"Button","componentSetId":"8:8"}}"#
    );
}

#[test]
fn bad_responses_are_errors() {
    let fault = |s: &str| simplify_raw(&parse(s), None, vec![]).unwrap_err();
    assert_eq!(fault(r#"{"nodes": {}}"#), "empty nodes response");
    assert_eq!(fault(r#"{"nodes": {"1:2": {}}}"#), "nodes response missing document");
    assert_eq!(
        fault(r#"{"nodes": {"1:2": null}}"#),
        "node 1:2 was not found in the Figma file. Only /design/ and /file/ URLs are supported; branches need their own fileKey."
    );
    assert_eq!(simplify_raw(&parse("{}"), None, vec![]).unwrap().name, "Untitled");
}

#[test]
fn hidden_nodes_show_inside_components_only() {
    let page = |kind: &str| {
        let s = format!(
            r##"{{"document": {{"children": [{{"id": "1", "type": "{kind}", "children": [
                {{"id": "2", "type": "TEXT", "visible": false, "characters": "x",
                  "componentPropertyReferences": {{"visible": "Show#1:0"}}}}]}}]}}}}"##
        );
        to_text(&simplify_raw(&parse(&s), None, vec![]).unwrap().nodes[0])
    };
    assert_eq!(page("FRAME"), r#"{"id":"1","name":"","type":"FRAME"}"#);
    assert_eq!(
        page("COMPONENT"),
        r#"{"id":"1","name":"","type":"COMPONENT","children":[{"id":"2","name":"","type":"TEXT","text":"x","componentPropertyReferences":{"visible":"Show"}}]}"#
    );
}

#[test]
fn drawings_collapse_into_one_image() {
    let body = r#"{"document": {"children": [{"id": "1", "name": "Icon", "type": "GROUP", "children": [
        {"id": "2", "type": "VECTOR"}, {"id": "3", "type": "ELLIPSE"}]}]}}"#;
    let kids = simplify_raw(&parse(body), None, vec![]).unwrap();
    assert_eq!(to_text(&kids.nodes[0]), r#"{"id":"1","name":"Icon","type":"IMAGE-SVG"}"#);
    let laid_out = body.replace("\"GROUP\"", "\"FRAME\", \"layoutMode\": \"VERTICAL\"");
    let kids = simplify_raw(&parse(&laid_out), None, vec![]).unwrap();
    assert!(to_text(&kids.nodes[0]).contains("children"));
}

#[test]
fn styles_used_twice_are_shared() {
    let body = parse(
        r#"{"document": {"children": [
        {"id": "1", "type": "A", "fills": [{"type": "SOLID", "color": {"r": 1, "g": 0, "b": 0}}], "opacity": 0.5},
        {"id": "2", "type": "B", "fills": [{"type": "SOLID", "color": {"r": 1, "g": 0, "b": 0}}]},
        {"id": "3", "type": "C", "fills": [{"type": "SOLID", "color": {"r": 0, "g": 1, "b": 0}}]}
    ]}}"#,
    );
    let design = simplify_raw(&body, None, vec![]).unwrap();
    assert_eq!(
        to_text(&Value::Array(design.nodes)),
        r##"[{"id":"1","name":"","type":"A","fills":"fill_ba83604b","opacity":0.5},{"id":"2","name":"","type":"B","fills":"fill_ba83604b"},{"id":"3","name":"","type":"C","fills":["#00FF00"]}]"##
    );
    assert_eq!(object_text(&design.global_vars), r##"{"fill_ba83604b":["#FF0000"]}"##);
}

#[test]
fn styles_of_one_element_move_into_it() {
    let rect = |id: &str| {
        format!(
            r#"{{"id": "{id}", "type": "RECTANGLE", "fills": [{{"type": "SOLID", "color": {{"r": 1, "g": 0, "b": 0}}}}]}}"#
        )
    };
    let body = format!(r#"{{"document": {{"children": [{},{}]}}}}"#, rect("1"), rect("2"));
    let design = simplify_raw(&parse(&body), None, vec![]).unwrap();
    assert_eq!(
        to_text(&Value::Array(design.nodes)),
        r#"[{"id":"1","name":"","template":"EL-f62197f1"},{"id":"2","name":"","template":"EL-f62197f1"}]"#
    );
    assert_eq!(
        object_text(&design.elements),
        r##"{"EL-f62197f1":{"type":"RECTANGLE","fills":["#FF0000"]}}"##
    );
    assert_eq!(object_text(&design.global_vars), "{}");
}

#[test]
fn named_styles_keep_their_names() {
    let body = parse(
        r#"{"styles": {"S:1": {"name": "Brand/Red"}},
            "document": {"children": [
        {"id": "1", "type": "A", "styles": {"fill": "S:1"}, "fills": [{"type": "SOLID", "color": {"r": 1, "g": 0, "b": 0}}]},
        {"id": "2", "type": "B", "styles": {"fill": "S:1"}, "fills": [{"type": "SOLID", "color": {"r": 0, "g": 0, "b": 1}}]}
    ]}}"#,
    );
    let design = simplify_raw(&body, None, vec![]).unwrap();
    assert_eq!(
        object_text(&design.global_vars),
        r##"{"Brand/Red":["#FF0000"],"Brand/Red (S:1)":["#0000FF"]}"##
    );
}

#[test]
fn elements_come_from_bodies_that_occur_again() {
    let list = |s: &str| match parse(s) {
        Value::Array(a) => a,
        _ => unreachable!(),
    };
    let mut nodes = list(
        r#"[{"id": "1", "name": "a", "type": "T", "text": "x"},
            {"id": "2", "type": "U", "text": "y", "children": [{"text": "x", "id": "3", "type": "T", "children": []}]}]"#,
    );
    assert_eq!(count_style_refs(&nodes).len(), 0);
    let (elements, seen) = deduplicate_elements(&mut nodes);
    assert_eq!(elements.entries.len(), 1);
    assert_eq!(elements.entries[0].0, seen[0]);
    assert_eq!(seen[0], seen[2]);
    assert_ne!(seen[0], seen[1]);
    assert_eq!(to_text(&elements.entries[0].1), r#"{"type":"T","text":"x"}"#);
    let id = &seen[0];
    assert_eq!(
        to_text(&Value::Array(nodes)),
        format!(
            r#"[{{"id":"1","name":"a","template":"{id}"}},{{"id":"2","type":"U","text":"y","children":[{{"id":"3","template":"{id}","children":[]}}]}}]"#
        )
    );
}

#[test]
fn canonical_values_have_sorted_keys() {
    let v = parse(r#"{"b": [1, {"z": null, "a": "q\"\n\u0001é"}], "B": true, "a": 1.5}"#);
    assert_eq!(stable_stringify(&v), "{\"B\":true,\"a\":1.5,\"b\":[1,{\"a\":\"q\\\"\\n\\u0001é\",\"z\":null}]}");
    assert_eq!(to_text(&canonical(&v)), stable_stringify(&v));
    assert_eq!(stable_stringify(&canonical(&v)), stable_stringify(&v));
}

#[test]
fn values_are_registered_once() {
    let mut styles = Object::new();
    let mut cache = vec![];
    let red = || parse(r##"["#FF0000"]"##);
    let a = find_or_create_var(&mut styles, &mut cache, red(), "fill");
    let b = find_or_create_var(&mut styles, &mut cache, red(), "other");
    assert_eq!(a, b);
    assert_eq!(a, "fill_ba83604b");
    assert_eq!(styles.entries.len(), 1);
}

#[test]
fn inline_styles_are_numbered() {
    let mut ctx = Ctx::new(Object::new(), vec![]);
    assert_eq!(register_inline_style(&mut ctx, parse(r#"{"a": 1}"#)), "ts1");
    assert_eq!(register_inline_style(&mut ctx, parse(r#"{"b": 1}"#)), "ts2");
    assert_eq!(register_inline_style(&mut ctx, parse(r#"{"a": 1}"#)), "ts1");
}

#[test]
fn unnamed_figma_styles_are_known_by_id() {
    let mut ctx = Ctx::new(Object::new(), vec![]);
    let node = parse(r#"{"styles": {"fills": "S:7"}}"#);
    assert_eq!(register_style(&mut ctx, &node, parse("[1]"), &["fill", "fills"], "fill"), "S:7");
    assert_eq!(register_style(&mut ctx, &node, parse("[2]"), &["fill", "fills"], "fill"), "S:7 (S:7)");
    assert_eq!(ctx.named_style_keys, ["S:7", "S:7 (S:7)"]);
}

#[test]
fn noise_names() {
    assert!(is_noise_name("Rectangle 12", Some("RECTANGLE")));
    assert!(is_noise_name("Title", Some("TEXT")));
    assert!(!is_noise_name("Hero", Some("FRAME")));
    assert!(!is_noise_name("Rectangle x", Some("RECTANGLE")));
}

fn depth(v: &Value) -> usize {
    match v.get("children") {
        Some(Value::Array(kids)) => 1 + kids.iter().map(depth).max().unwrap_or(0),
        _ => 0,
    }
}

#[test]
fn designs_are_as_deep_as_asked_for() {
    for levels in 0..4 {
        let design = simplify_raw(&value(&fixture_file()), Some(levels), vec![]).unwrap();
        assert_eq!(depth(&design.nodes[0]), (levels as usize).min(2));
    }
}

fn check_references(v: &Value, styles: &Object) {
    for key in ["layout", "fills", "strokes", "effects", "textStyle"] {
        if let Some(Value::String(id)) = v.get(key) {
            assert!(styles.contains_key(id), "{key} refers to {id}");
        }
    }
    if let Some(Value::Array(kids)) = v.get("children") {
        for k in kids {
            check_references(k, styles);
        }
    }
}

#[test]
fn references_lead_to_styles() {
    let rect = |id: &str, kind: &str| {
        format!(
            r#"{{"id": "{id}", "type": "{kind}", "fills": [{{"type": "SOLID", "color": {{"r": 1, "g": 0, "b": 0}}}}],
                 "strokes": [{{"type": "SOLID", "color": {{"r": 1, "g": 0, "b": 0}}}}]}}"#
        )
    };
    let body = format!(
        r#"{{"document": {{"children": [{}, {}, {}]}}}}"#,
        rect("1", "A"),
        rect("2", "A"),
        rect("3", "B")
    );
    let design = simplify_raw(&parse(&body), None, vec![]).unwrap();
    assert_eq!(object_text(&design.global_vars), r##"{"fill_ba83604b":["#FF0000"]}"##);
    for n in &design.nodes {
        check_references(n, &design.global_vars);
    }
    for (_, e) in &design.elements.entries {
        check_references(e, &design.global_vars);
    }
}

#[test]
fn sections_of_a_tree() {
    let rect = |id: &str| {
        format!(
            r#"{{"id": "{id}", "name": "My box", "type": "RECTANGLE", "fills": [{{"type": "SOLID", "color": {{"r": 1, "g": 0, "b": 0}}}}],
                 "strokes": [{{"type": "SOLID", "color": {{"r": 1, "g": 0, "b": 0}}}}], "strokeDashes": [1, 2.5]}}"#
        )
    };
    let body = format!(
        r#"{{"name": "a \"b\"", "components": {{"9:9": {{"key": "k", "name": "Button"}}}},
             "document": {{"children": [{}, {}]}}}}"#,
        rect("1"),
        rect("2")
    );
    let design = simplify_raw(&parse(&body), None, vec![]).unwrap();
    assert_eq!(
        serialize_design(&design, OutputFormat::Tree),
        "NAME: \"a \\\"b\\\"\"\n\n\
         GLOBAL_VARS:\nfill_ba83604b:\n- '#FF0000'\n\n\
         ELEMENTS:\nEL-b7a03b1a:\n  type: RECTANGLE\n  fills: fill_ba83604b\n  strokes: fill_ba83604b\n  strokeDashes:\n  - 1\n  - 2.5\n\n\
         COMPONENTS:\n9:9:\n  id: 9:9\n  key: k\n  name: Button\n\n\
         NODES:\n[RECTANGLE] \"My box\" #1 template=EL-b7a03b1a\n[RECTANGLE] \"My box\" #2 template=EL-b7a03b1a"
    );
}

fn object(s: &str) -> Object {
    match parse(s) {
        Value::Object(o) => o,
        _ => panic!("no object"),
    }
}

const DIGEST: &str = "0123456789abcdef0123456789abcdef01234567";

#[test]
fn style_ids_lengthen_on_a_clash() {
    assert_eq!(find_free_id(&object("{}"), "fill", DIGEST), "fill_01234567");
    assert_eq!(find_free_id(&object(r#"{"fill_01234567": 1}"#), "fill", DIGEST), "fill_0123456789ab");
    let all: Vec<String> = (2..10).map(|n| format!("\"fill_{}\": 1", &DIGEST[..4 * n])).collect();
    let taken = object(&format!("{{{}}}", all.join(",")));
    assert_eq!(find_free_id(&taken, "fill", DIGEST), format!("fill_{DIGEST}"));
}

#[test]
fn element_ids_lengthen_on_a_clash() {
    let a = r#"{"a":1,"b":2}"#;
    let b = r#"{"a":1,"b":3}"#;
    let mut table = BodyTable::new();
    for s in [a, b, b] {
        table.add_hashed(object(s), s.to_string(), DIGEST);
    }
    let elements = table.elements();
    assert_eq!(object_text(&elements), format!(r#"{{"EL-0123456789ab":{b}}}"#));
    assert_eq!(find_element(b, DIGEST, &elements).as_deref(), Some("EL-0123456789ab"));
    assert_eq!(find_element(a, DIGEST, &elements), None);
    table.add_hashed(object(a), a.to_string(), DIGEST);
    let elements = table.elements();
    assert_eq!(object_text(&elements), format!(r#"{{"EL-01234567":{a},"EL-0123456789ab":{b}}}"#));
    assert_eq!(find_element(a, DIGEST, &elements).as_deref(), Some("EL-01234567"));
    assert_eq!(find_element(b, DIGEST, &elements).as_deref(), Some("EL-0123456789ab"));
}

#[test]
fn sections_stand_below_each_other() {
    let some = |s: &str| Some(s.to_string());
    assert_eq!(
        lay_out("n", &some("a: 1\n"), &some("b: 1\n"), &some("c: 1\n"), &some("d: 1\n"), &vec!["x".to_string()]),
        "NAME: \"n\"\n\nGLOBAL_VARS:\na: 1\n\nELEMENTS:\nb: 1\n\nCOMPONENTS:\nc: 1\n\nCOMPONENT_SETS:\nd: 1\n\nNODES:\nx"
    );
    assert_eq!(lay_out("n", &None, &None, &None, &None, &Vec::new()), "NAME: \"n\"\nNODES:");
}

#[test]
fn enough_levels_are_no_limit() {
    let body = value(&fixture_file());
    let all = serialize_design(&simplify_raw(&body, None, vec![]).unwrap(), OutputFormat::Json);
    for levels in [2, 3, 99] {
        assert_eq!(serialize_design(&simplify_raw(&body, Some(levels), vec![]).unwrap(), OutputFormat::Json), all);
    }
    assert_ne!(serialize_design(&simplify_raw(&body, Some(1), vec![]).unwrap(), OutputFormat::Json), all);
}

fn check_templates(v: &Value, elements: &Object) {
    if let Some(Value::String(id)) = v.get("template") {
        assert!(elements.contains_key(id), "{id}");
    }
    if let Some(Value::Array(kids)) = v.get("children") {
        kids.iter().for_each(|k| check_templates(k, elements));
    }
}

#[test]
fn templates_lead_to_elements() {
    let rect = r#"{"id": "2", "type": "RECTANGLE", "opacity": 0.5}"#;
    let body = format!(r#"{{"document": {{"children": [{{"id": "1", "type": "X", "children": [{rect}, {rect}]}}]}}}}"#);
    let design = simplify_raw(&parse(&body), None, vec![]).unwrap();
    assert_eq!(design.elements.entries.len(), 1);
    design.nodes.iter().for_each(|n| check_templates(n, &design.elements));
}
