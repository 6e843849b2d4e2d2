use figma_framelink_cli::cli::{
    is_valid_suffix, validate_file_name, Cli, Command, DownloadImagesArgs, GetFigmaDataArgs, NodesSource, ParseUrlArgs,
};
use figma_framelink_cli::float::from_int;
use figma_framelink_cli::images::DownloadNode;
use figma_framelink_cli::serialize::OutputFormat;

fn own(s: &str) -> Option<String> {
    Some(s.to_string())
}

fn download(json: Option<String>, file: Option<String>) -> DownloadImagesArgs {
    DownloadImagesArgs {
        file_key: "K".to_string(),
        nodes_json: json,
        nodes_file: file,
        local_path: "../out".to_string(),
        image_dir: None,
        png_scale: from_int(2),
    }
}

fn node(id: &str, file: &str, suffix: Option<String>) -> DownloadNode {
    DownloadNode {
        node_id: id.to_string(),
        image_ref: None,
        gif_ref: None,
        file_name: file.to_string(),
        needs_cropping: false,
        crop_transform: None,
        requires_image_dimensions: false,
        filename_suffix: suffix,
    }
}

#[test]
fn proxy_choices() {
    let with = |p: Option<String>| Cli {
        figma_api_key: None,
        figma_oauth_token: None,
        env: None,
        proxy: p,
        verbose: false,
        command: Command::ParseUrl(ParseUrlArgs { url: String::new() }),
    };
    assert_eq!(with(None).proxy_config(), Ok(None));
    assert_eq!(with(own("none")).proxy_config(), Ok(Some(None)));
    assert_eq!(with(own("http://p")).proxy_config(), Ok(Some(own("http://p"))));
}

#[test]
fn formats() {
    let with = |f: Option<&str>, json: bool| {
        GetFigmaDataArgs {
            url: None,
            file_key: None,
            node_id: None,
            depth: None,
            format: f.map(|s| s.to_string()),
            json,
            output: None,
        }
        .format()
    };
    assert_eq!(with(None, false), OutputFormat::Tree);
    assert_eq!(with(None, true), OutputFormat::Json);
    assert_eq!(with(Some("tree"), true), OutputFormat::Json);
    assert_eq!(with(Some("yaml"), true), OutputFormat::Yaml);
    assert_eq!(with(Some("json"), false), OutputFormat::Json);
}

#[test]
fn file_names() {
    for name in ["a.png", "A_b-1.v2.svg", "x.gif"] {
        assert_eq!(validate_file_name(name), Ok(()));
    }
    let long = format!("{}.png", "a".repeat(197));
    for name in ["a.jpg", "a/b.png", "a b.png", "\u{e9}.png", ".png", "", long.as_str()] {
        assert_eq!(
            validate_file_name(name),
            Err(format!(
                "invalid fileName {name:?}: use only letters, numbers, _, . or - and end with .png, .svg or .gif"
            ))
        );
    }
    assert_eq!(validate_file_name(&long[1..]), Ok(()));
}

#[test]
fn suffixes() {
    assert!(is_valid_suffix("2ed677"));
    assert!(is_valid_suffix("a_b-c"));
    assert!(!is_valid_suffix(""));
    assert!(!is_valid_suffix("a.b"));
}

#[test]
fn requests_come_from_the_command_line_or_a_file() {
    assert!(matches!(download(own("[]"), own("f")).nodes_source(), Ok(NodesSource::Inline(s)) if s == "[]"));
    assert!(matches!(download(None, own("f")).nodes_source(), Ok(NodesSource::File(s)) if s == "f"));
    let missing = "either --nodes-json or --nodes-file is required";
    assert_eq!(download(None, None).nodes_source().unwrap_err(), missing);
    assert_eq!(download(None, None).load_nodes(vec![]).unwrap_err(), missing);
}

#[test]
fn requests_are_checked() {
    let load = |nodes: Vec<DownloadNode>| download(own("[]"), None).load_nodes(nodes);
    let good = load(vec![node("1-2", "a.png", own("x1")), node("3:4", "b.svg", None)]).unwrap();
    assert_eq!(good[0].node_id, "1:2");
    assert_eq!(good[1].node_id, "3:4");
    assert_eq!(good[0].filename_suffix.as_deref(), Some("x1"));
    assert_eq!(load(vec![]).unwrap_err(), "nodes array is empty");
    assert_eq!(
        load(vec![node("1", "a.png", own("x/y")), node("1", "bad", None)]).unwrap_err(),
        "invalid filenameSuffix \"x/y\": use only letters, numbers, _ or -"
    );
    assert!(load(vec![node("1", "bad", own("x/y"))]).unwrap_err().starts_with("invalid fileName \"bad\""));
}

#[test]
fn base_directories() {
    let mut args = download(None, None);
    assert_eq!(args.image_dir(Ok("/cwd".to_string())), Ok("/cwd".to_string()));
    assert_eq!(args.image_dir(Err("gone".to_string())), Err("resolving cwd: gone".to_string()));
    assert_eq!(
        args.local_path_error("no", "\"/cwd\""),
        "invalid --local-path \"../out\": no (image dir is \"/cwd\"; pass a path relative to it, e.g. \"public/images\")"
    );
    args.image_dir = own("img");
    assert_eq!(args.image_dir(Err("gone".to_string())), Ok("img".to_string()));
}
