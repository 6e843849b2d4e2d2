use figma_framelink_cli::config::{resolve_auth, resolve_file_and_node, Auth};
use figma_framelink_cli::figma::{
    auth_header, build_forbidden_message, build_unauthorized_message, encode_ids, file_endpoint, image_fill_urls,
    image_fills_endpoint, missing_node_error, node_endpoint, node_render_urls, proxy_mode, render_endpoint,
    response_error, ProxyMode,
};
use figma_framelink_cli::float::Double;
use figma_framelink_cli::json::{Number, Object, Value};

fn value(v: &serde_json::Value) -> Value {
    match v {
        serde_json::Value::Null => Value::Null,
        serde_json::Value::Bool(b) => Value::Bool(*b),
        serde_json::Value::Number(n) => Value::Number(if let Some(u) = n.as_u64() {
            Number::PosInt(u)
        } else if let Some(i) = n.as_i64() {
            Number::NegInt(i)
        } else {
            match Double::from_bits(n.as_f64().unwrap().to_bits()) {
                Double::Finite(f) => Number::Float(f),
                _ => unreachable!(),
            }
        }),
        serde_json::Value::String(s) => Value::String(s.clone()),
        serde_json::Value::Array(a) => Value::Array(a.iter().map(value).collect()),
        serde_json::Value::Object(o) => {
            let mut out = Object::new();
            for (k, v) in o {
                out.insert(k.clone(), value(v));
            }
            Value::Object(out)
        }
    }
}

fn parse(s: &str) -> Value {
    value(&serde_json::from_str(s).unwrap())
}

#[test]
fn forbidden_message_preserves_expired_token_body() {
    let msg = build_forbidden_message(
        "/files/ABC/nodes?ids=1:2",
        r#"{"status":403,"err":"Token expired"}"#,
        ProxyMode::Direct,
        false,
    );
    assert!(msg.contains("403 Forbidden"), "{msg}");
    assert!(msg.contains("Token expired"), "{msg}");
    assert!(msg.contains("Response body:"), "{msg}");
    assert!(
        msg.to_lowercase().contains("expired"),
        "expected expired-token pointer in: {msg}"
    );
    assert!(msg.contains("framelink.ai/docs/troubleshooting"), "{msg}");
}

#[test]
fn forbidden_message_without_body_uses_generic_header() {
    let msg = build_forbidden_message("/files/ABC", "", ProxyMode::Direct, false);
    assert!(msg.contains("403 Forbidden"), "{msg}");
    assert!(!msg.contains("Response body:"), "{msg}");
    assert!(msg.contains("typically one of the following"), "{msg}");
}

#[test]
fn unauthorized_message_preserves_body_and_names_credential() {
    let msg = build_unauthorized_message(
        "/v1/me",
        r#"{"status":401,"err":"Token has expired"}"#,
        false,
    );
    assert!(msg.contains("401"), "{msg}");
    assert!(msg.contains("Token has expired"), "{msg}");
    assert!(msg.contains("FIGMA_API_KEY"), "{msg}");
}

#[test]
fn unauthorized_message_names_oauth_credential() {
    let msg = build_unauthorized_message("/v1/me", "unauthorized", true);
    assert!(msg.contains("FIGMA_OAUTH_TOKEN"), "{msg}");
}

#[test]
fn oauth_header_is_a_bearer_token() {
    let auth = Auth { api_key: "k".to_string(), oauth_token: "t".to_string(), use_oauth: true };
    assert_eq!(auth_header(&auth), Ok(("Authorization".to_string(), "Bearer t".to_string())));
}

#[test]
fn api_key_header_and_no_credential() {
    let auth = |k: &str| Auth { api_key: k.to_string(), oauth_token: String::new(), use_oauth: false };
    assert_eq!(auth_header(&auth("k")), Ok(("X-Figma-Token".to_string(), "k".to_string())));
    assert_eq!(
        auth_header(&auth("")),
        Err("Figma API authentication is required (FIGMA_API_KEY or FIGMA_OAUTH_TOKEN)".to_string())
    );
}

#[test]
fn flags_win_over_the_environment() {
    let a = resolve_auth(Some("flag"), None, Some("env"), None).unwrap();
    assert_eq!((a.api_key.as_str(), a.use_oauth), ("flag", false));
    let a = resolve_auth(None, None, Some("env"), Some("token")).unwrap();
    assert_eq!((a.api_key.as_str(), a.oauth_token.as_str(), a.use_oauth), ("env", "token", true));
    assert_eq!(
        resolve_auth(None, Some(""), Some(""), Some("token")).unwrap_err(),
        "either FIGMA_API_KEY or FIGMA_OAUTH_TOKEN is required (via --figma-api-key/--figma-oauth-token, env, or .env file)"
    );
}

#[test]
fn flags_win_over_the_url() {
    let own = |s: &str| Some(s.to_string());
    let url = Some("https://www.figma.com/design/ABC123/Site?node-id=1-2");
    assert_eq!(resolve_file_and_node(url, None, None), Ok(("ABC123".to_string(), own("1:2"))));
    assert_eq!(resolve_file_and_node(url, own("XYZ"), own("3-4")), Ok(("XYZ".to_string(), own("3:4"))));
    assert_eq!(resolve_file_and_node(Some("nonsense"), own("XYZ"), None), Ok(("XYZ".to_string(), None)));
    assert_eq!(
        resolve_file_and_node(None, own("X/Y"), None),
        Err("invalid file key \"X/Y\": must be alphanumeric".to_string())
    );
    assert_eq!(resolve_file_and_node(None, None, own("1:2")), Err("a Figma URL or --file-key is required".to_string()));
    assert_eq!(
        resolve_file_and_node(Some("nonsense"), None, None),
        Err("parsing Figma URL \"nonsense\": not a valid URL \"nonsense\": relative URL without a base".to_string())
    );
}

#[test]
fn dashes_and_colons_are_alike() {
    let with = |n: &str| resolve_file_and_node(None, Some("K".to_string()), Some(n.to_string()));
    assert_eq!(with("1-2"), with("1:2"));
}

#[test]
fn endpoints() {
    let ids = vec!["1:2".to_string(), "3:4".to_string()];
    let double = |x: f64| Double::from_bits(x.to_bits());
    assert_eq!(encode_ids(&ids), "1:2,3:4");
    assert_eq!(file_endpoint("K", None), "/files/K");
    assert_eq!(file_endpoint("K", Some(3)), "/files/K?depth=3");
    assert_eq!(node_endpoint("K", "1:2", None), "/files/K/nodes?ids=1:2");
    assert_eq!(node_endpoint("K", "1:2", Some(3)), "/files/K/nodes?ids=1:2&depth=3");
    assert_eq!(image_fills_endpoint("K"), "/files/K/images");
    let render = |f: &str, s: f64| render_endpoint("K", &ids, f, double(s)).unwrap();
    assert_eq!(render("png", 2.0), "/images/K?ids=1:2,3:4&format=png&scale=2");
    assert_eq!(render("png", 1.5), "/images/K?ids=1:2,3:4&format=png&scale=1.5");
    assert_eq!(render("png", 9.0), "/images/K?ids=1:2,3:4&format=png&scale=4");
    assert_eq!(render("png", 0.0), "/images/K?ids=1:2,3:4&format=png&scale=0.01");
    assert_eq!(
        render("svg", 2.0),
        "/images/K?ids=1:2,3:4&format=svg&svg_outline_text=true&svg_include_id=false&svg_simplify_stroke=true"
    );
    assert_eq!(render_endpoint("K", &vec![], "png", double(2.0)), None);
}

#[test]
fn responses_that_are_errors() {
    let fault = |status: u16, line: &str, body: &str| {
        response_error("/files/K", status, line, body, false, ProxyMode::Direct, true)
    };
    assert_eq!(fault(200, "200 OK", "x"), None);
    assert_eq!(
        fault(429, "429 Too Many Requests", "x").as_deref(),
        Some("Figma API rate limit exceeded (429). Wait before retrying; free-plan files are most affected.")
    );
    assert_eq!(
        fault(500, "500 Internal Server Error", &"é".repeat(301)).unwrap(),
        format!(
            "Figma API request to \"/files/K\" failed with status 500 Internal Server Error: {}",
            "é".repeat(300)
        )
    );
    assert_eq!(
        fault(403, "403 Forbidden", "no").unwrap(),
        build_forbidden_message("/files/K", "no", ProxyMode::Direct, true)
    );
    assert_eq!(
        fault(401, "401 Unauthorized", "no").unwrap(),
        build_unauthorized_message("/files/K", "no", false)
    );
}

#[test]
fn proxies_are_pointed_at() {
    let hint = |m: ProxyMode, env: bool| build_forbidden_message("/f", "", m, env);
    assert!(hint(ProxyMode::Explicit, false).contains("--proxy/FIGMA_PROXY"));
    assert!(hint(ProxyMode::Env, true).contains("NO_PROXY=api.figma.com"));
    assert!(!hint(ProxyMode::Env, false).contains("Note:"));
    assert!(!hint(ProxyMode::Direct, true).contains("Note:"));
    assert_eq!(proxy_mode(&None), ProxyMode::Env);
    assert_eq!(proxy_mode(&Some(None)), ProxyMode::Direct);
    assert_eq!(proxy_mode(&Some(Some("http://p".to_string()))), ProxyMode::Explicit);
}

#[test]
fn long_bodies_are_capped() {
    let msg = build_forbidden_message("/f", &"x".repeat(2005), ProxyMode::Direct, false);
    assert!(msg.contains(&format!("Response body: {}... [truncated 5 chars]", "x".repeat(2000))), "{msg}");
}

#[test]
fn missing_nodes_are_reported() {
    assert_eq!(missing_node_error(&parse(r#"{"nodes": {"1:2": {}}}"#)), None);
    let msg = missing_node_error(&parse(r#"{"nodes": {"1:2": {}, "3:4": null}}"#)).unwrap();
    assert!(msg.starts_with("node 3:4 was not found in the Figma file. Likely causes: (1)"), "{msg}");
}

#[test]
fn url_lists_leave_out_what_is_no_url() {
    let pair = |k: &str, v: &str| (k.to_string(), v.to_string());
    assert_eq!(
        image_fill_urls(&parse(r#"{"meta": {"images": {"a": "u", "b": "", "c": null, "d": "v"}}}"#)),
        [pair("a", "u"), pair("d", "v")]
    );
    assert_eq!(node_render_urls(&parse(r#"{"images": {"1:2": null, "3:4": "w"}}"#)), [pair("3:4", "w")]);
    assert_eq!(image_fill_urls(&parse("{}")).len(), 0);
}
