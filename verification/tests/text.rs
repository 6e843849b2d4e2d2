use figma_framelink_cli::float::Double;
use figma_framelink_cli::json::{to_text, Number, Object, Value};
use figma_framelink_cli::simplify::markdown::{escape_link_url, escape_markdown, split_edge_whitespace, write_marked};
use figma_framelink_cli::simplify::text::{build_formatted_text, extract_text_style};
use figma_framelink_cli::simplify::Ctx;

fn value(v: &serde_json::Value) -> Value {
    match v {
        serde_json::Value::Null => Value::Null,
        serde_json::Value::Bool(b) => Value::Bool(*b),
        serde_json::Value::Number(n) => Value::Number(if let Some(u) = n.as_u64() {
            Number::PosInt(u)
        } else if let Some(i) = n.as_i64() {
            Number::NegInt(i)
        } else {
            match Double::from_bits(n.as_f64().unwrap().to_bits()) {
                Double::Finite(f) => Number::Float(f),
                _ => unreachable!(),
            }
        }),
        serde_json::Value::String(s) => Value::String(s.clone()),
        serde_json::Value::Array(a) => Value::Array(a.iter().map(value).collect()),
        serde_json::Value::Object(o) => {
            let mut out = Object::new();
            for (k, v) in o {
                out.insert(k.clone(), value(v));
            }
            Value::Object(out)
        }
    }
}

fn parse(s: &str) -> Value {
    value(&serde_json::from_str(s).unwrap())
}

fn fresh() -> Ctx {
    Ctx::new(Object::new(), vec![])
}

const TEXT_NODE: &str = r#"{
    "type": "TEXT",
    "characters": "edited body",
    "style": {"fontFamily": "Inter", "fontWeight": 400, "fontSize": 16.0},
    "characterStyleOverrides": [1, 1, 1, 1, 1, 1, 0, 0, 0, 0, 0],
    "styleOverrideTable": {"1": {"fontWeight": 700}}
}"#;

#[test]
fn markdown_hugs_text_without_edge_whitespace() {
    let out = build_formatted_text(&parse(TEXT_NODE), &mut fresh());
    assert_eq!(out.text.as_deref(), Some("**edited** body"));
    assert_eq!(out.bold_weight, Some(700));
}

#[test]
fn markdown_markers_skip_flanking_whitespace() {
    let mut node: serde_json::Value = serde_json::from_str(TEXT_NODE).unwrap();
    node["characters"] = serde_json::Value::String(" edited ".to_string());
    node["characterStyleOverrides"] =
        serde_json::Value::Array((0..8).map(|_| serde_json::Value::Number(1.into())).collect());
    let out = build_formatted_text(&value(&node), &mut fresh());
    assert_eq!(out.text.as_deref(), Some(" **edited** "));
}

#[test]
fn split_edges() {
    assert_eq!(
        split_edge_whitespace("edited"),
        ("".to_string(), "edited".to_string(), "".to_string())
    );
    assert_eq!(
        split_edge_whitespace("  a b "),
        ("  ".to_string(), "a b".to_string(), " ".to_string())
    );
}

#[test]
fn other_styles_of_a_run_are_registered() {
    let node = parse(
        r#"{
        "type": "TEXT",
        "characters": "ab [c] d",
        "style": {"fontFamily": "Inter", "fontWeight": 400, "fontSize": 16.0},
        "characterStyleOverrides": [0, 0, 0, 2, 2, 2],
        "styleOverrideTable": {"2": {"fontWeight": 600, "fontSize": 20.0}}
    }"#,
    );
    let mut ctx = fresh();
    let out = build_formatted_text(&node, &mut ctx);
    assert_eq!(out.text.as_deref(), Some("ab {ts1}**\\[c\\]**{/ts1} d"));
    assert_eq!(out.bold_weight, Some(600));
    assert_eq!(ctx.styles.entries.len(), 1);
    assert_eq!(ctx.styles.entries[0].0, "ts1");
    let again = build_formatted_text(&node, &mut ctx);
    assert_eq!(again.text, out.text);
    assert_eq!(ctx.styles.entries.len(), 1);
}

#[test]
fn lists_are_written_as_lists() {
    let node = parse(
        r#"{
        "type": "TEXT",
        "characters": "one\ntwo\nthree",
        "style": {"fontFamily": "Inter", "fontWeight": 400, "fontSize": 16.0},
        "lineTypes": ["ORDERED", "UNORDERED", "NONE"],
        "lineIndentations": [1, 2, 0],
        "characterStyleOverrides": [],
        "styleOverrideTable": {}
    }"#,
    );
    let out = build_formatted_text(&node, &mut fresh());
    assert_eq!(out.text.as_deref(), Some("  1. one\\n    - two\\nthree"));
    assert_eq!(out.bold_weight, None);
}

#[test]
fn markdown_is_escaped() {
    assert_eq!(escape_markdown("a*b_c"), "a\\*b\\_c");
    assert_eq!(escape_markdown("[x](y)"), "\\[x\\]\\(y\\)");
    assert_eq!(escape_markdown("plain"), "plain");
    assert_eq!(escape_link_url("http://x/a(b)"), "http://x/a%28b%29");
}

#[test]
fn marks_are_written_around_a_text() {
    let url = Some("http://x".to_string());
    assert_eq!(write_marked(" a ", true, true, false, &None), " ***a*** ");
    assert_eq!(write_marked("a", false, false, true, &url), "[~~a~~](http://x)");
    assert_eq!(write_marked("  ", true, false, false, &None), "  ****");
    assert_eq!(write_marked("a\u{2029}", false, false, false, &None), "a\\n");
}

#[test]
fn text_styles_are_compact() {
    let node = parse(
        r#"{
        "type": "TEXT",
        "style": {
            "fontFamily": "Inter", "fontPostScriptName": "Inter-Bold", "fontWeight": 700, "fontSize": 24.0,
            "lineHeightPx": 32.0, "lineHeightUnit": "PIXELS", "letterSpacing": 0.24,
            "textAlignHorizontal": "LEFT", "textAlignVertical": "CENTER"
        }
    }"#,
    );
    assert_eq!(
        to_text(&extract_text_style(&node).unwrap()),
        r#"{"fontFamily":"Inter","fontWeight":700,"fontSize":24,"lineHeight":"32px","letterSpacing":"0.01em","textAlignHorizontal":"LEFT","textAlignVertical":"CENTER"}"#
    );
}

#[test]
fn link_targets_are_written_once() {
    let url = "https://a.b/(x y)\u{a0}z\u{3000}?q=\u{e9}";
    let once = escape_link_url(url);
    assert_eq!(once, "https://a.b/%28x%20y%29%C2%A0z%E3%80%80?q=\u{e9}");
    assert_eq!(escape_link_url(&once), once);
    assert!(!once.chars().any(|c| c == '(' || c == ')' || c.is_whitespace()));
}
