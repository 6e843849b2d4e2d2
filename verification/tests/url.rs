use figma_framelink_cli::figma_url::parse_figma_url;

#[test]
fn parses_design_url_with_node() {
    let p = parse_figma_url("https://www.figma.com/design/ABC123xyz/Site?node-id=1-2").unwrap();
    assert_eq!(p.file_key, "ABC123xyz");
    assert_eq!(p.node_id.as_deref(), Some("1:2"));
}

#[test]
fn parses_file_url_without_node() {
    let p = parse_figma_url("https://www.figma.com/file/ABC123/Name").unwrap();
    assert_eq!(p.file_key, "ABC123");
    assert!(p.node_id.is_none());
}

#[test]
fn rejects_non_figma_host() {
    assert!(parse_figma_url("https://example.com/design/ABC/x").is_err());
}

#[test]
fn rejects_proto_links() {
    assert!(parse_figma_url("https://www.figma.com/proto/ABC123/x").is_err());
}

#[test]
fn url_errors() {
    let fault = |s: &str| parse_figma_url(s).unwrap_err();
    assert_eq!(fault("x"), "not a valid URL \"x\": relative URL without a base");
    assert_eq!(fault("https://notfigma.com/design/A/x"), "not a Figma URL: https://notfigma.com/design/A/x");
    assert_eq!(fault("mailto:a@figma.com"), "not a Figma URL: mailto:a@figma.com");
    assert_eq!(
        fault("https://figma.com/design/A_B/x"),
        "could not extract file key from Figma URL: https://figma.com/design/A_B/x (only /design/ and /file/ URLs are supported)"
    );
}

#[test]
fn empty_node_ids_count_as_none() {
    let p = parse_figma_url("https://figma.com/file/ABC/x?a=b&node-id=").unwrap();
    assert!(p.node_id.is_none());
    assert_eq!(p.tell(), "fileKey: ABC\nnodeId: (none)");
    let p = parse_figma_url("https://figma.com/file/ABC/x?node-id=1%3A2&node-id=3-4").unwrap();
    assert_eq!(p.tell(), "fileKey: ABC\nnodeId: 1:2");
}
