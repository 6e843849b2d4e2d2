use figma_framelink_cli::float::Double;
use figma_framelink_cli::images::{
    choose_handling, choose_size, collect_render_ids, crop_rectangle, describe_file, find_url, handle_file,
    needs_fill_urls, parse_svg_dimensions, plan_downloads, summarize, Crop, DownloadNode, Handling, Item, Source,
};

fn double(x: f64) -> Double {
    Double::from_bits(x.to_bits())
}

fn rows(m: &[[f64; 3]; 2]) -> Vec<Vec<Double>> {
    m.iter().map(|r| r.iter().map(|x| double(*x)).collect()).collect()
}

fn node(id: &str, file: &str) -> DownloadNode {
    DownloadNode {
        node_id: id.to_string(),
        image_ref: None,
        gif_ref: None,
        file_name: file.to_string(),
        needs_cropping: false,
        crop_transform: None,
        requires_image_dimensions: false,
        filename_suffix: None,
    }
}

fn fill(image: &str, file: &str) -> DownloadNode {
    DownloadNode { image_ref: Some(image.to_string()), ..node("1:1", file) }
}

fn png(w: u32, h: u32) -> Vec<u8> {
    let mut out = std::io::Cursor::new(Vec::new());
    image::DynamicImage::new_rgb8(w, h).write_to(&mut out, image::ImageFormat::Png).unwrap();
    out.into_inner()
}

fn item_of(n: DownloadNode) -> Item {
    plan_downloads(&vec![n]).remove(0)
}

#[test]
fn svg_dims_from_attrs() {
    assert_eq!(
        parse_svg_dimensions(r#"<svg width="52" height="24">"#,),
        (52, 24)
    );
}

#[test]
fn svg_dims_from_viewbox() {
    assert_eq!(
        parse_svg_dimensions(r#"<svg viewBox="0 0 100 50">"#),
        (100, 50)
    );
}

#[test]
fn svg_dims_missing() {
    assert_eq!(parse_svg_dimensions("<svg></svg>"), (0, 0));
}

#[test]
fn svg_dims_take_units_and_single_quotes() {
    assert_eq!(parse_svg_dimensions("<?xml?><svg width='12.9px' height='7 em'/>"), (12, 7));
}

#[test]
fn svg_percentages_fall_back_to_the_view_box() {
    assert_eq!(parse_svg_dimensions(r#"<svg width="100%" height="20" viewBox="0,0,30.5,40">"#), (30, 40));
    assert_eq!(parse_svg_dimensions(r#"<svg width="0" height="20">"#), (0, 0));
    assert_eq!(parse_svg_dimensions(r#"<svg width="5" height="6""#), (0, 0));
    assert_eq!(parse_svg_dimensions(r#"<svg viewBox="0 0 x 30 40">"#), (30, 40));
    assert_eq!(parse_svg_dimensions(r#"<svg viewBox="0 0 30">"#), (0, 0));
    assert_eq!(parse_svg_dimensions(r#"<svg viewBox="0 0 -3 40">"#), (0, 0));
}

#[test]
fn svg_dims_come_from_attributes_with_the_whole_name() {
    assert_eq!(parse_svg_dimensions(r#"<svg stroke-width="2" width="52" height="24">"#), (52, 24));
    assert_eq!(parse_svg_dimensions(r#"<svg data-x=' width="9"' width="52" line-height="3" height="24">"#), (52, 24));
    assert_eq!(parse_svg_dimensions(r#"<svg my-viewBox="0 0 1 2" viewBox="0 0 100 50">"#), (100, 50));
    assert_eq!(parse_svg_dimensions(r#"<svg stroke-width="2" line-height="3">"#), (0, 0));
    assert_eq!(parse_svg_dimensions("<svg\n\twidth = '52'\n\theight=\"24\"/>"), (52, 24));
    assert_eq!(parse_svg_dimensions(r#"<svg id="a>b" width="52" height="24"><g width="1">"#), (52, 24));
    assert_eq!(parse_svg_dimensions(r#"<svg id="a"width="52"height="24">"#), (52, 24));
    assert_eq!(parse_svg_dimensions(r#"<svg width="52" height="24""#), (0, 0));
    assert_eq!(parse_svg_dimensions(r#"<svg><rect width="52" height="24"></svg>"#), (0, 0));
}

#[test]
fn same_fill_is_planned_once() {
    let mut second = fill("abc", "b.png");
    second.requires_image_dimensions = true;
    let plan = plan_downloads(&vec![fill("abc", "a.png"), second, fill("abc", "a.png"), fill("xyz", "c.png")]);
    assert_eq!(plan.len(), 2);
    assert_eq!(plan[0].names, ["a.png", "b.png"]);
    assert_eq!(plan[0].file_name, "a.png");
    assert!(plan[0].requires_dims);
    assert_eq!(plan[1].names, ["c.png"]);
    assert!(needs_fill_urls(&plan));
}

#[test]
fn suffixes_gifs_and_nodes_stay_apart() {
    let cut = |s: &str| DownloadNode { filename_suffix: Some(s.to_string()), ..fill("abc", "a.png") };
    let gif = || DownloadNode { gif_ref: Some("g".to_string()), ..fill("abc", "a.gif") };
    let plan = plan_downloads(&vec![cut("1"), cut("1"), gif(), gif(), node("1:2", "x.svg"), node("1:2", "x.PNG")]);
    let names: Vec<&str> = plan.iter().map(|i| i.file_name.as_str()).collect();
    assert_eq!(names, ["a-1.png", "a-1.png", "a.gif", "a.gif", "x.svg", "x.PNG"]);
    assert!(matches!(&plan[2].source, Source::Gif(g) if g == "g"));
    assert_eq!(collect_render_ids(&plan, true), ["1:2"]);
    assert_eq!(collect_render_ids(&plan, false), ["1:2"]);
    assert!(!needs_fill_urls(&plan_downloads(&vec![node("1:2", "x.svg")])));
}

#[test]
fn suffix_in_the_name_is_not_repeated() {
    let n = DownloadNode { filename_suffix: Some("crop".to_string()), ..fill("abc", "a-crop.v2.png") };
    assert_eq!(item_of(n).file_name, "a-crop.v2.png");
    let n = DownloadNode { filename_suffix: Some("crop".to_string()), ..fill("abc", "a.v2.png") };
    assert_eq!(item_of(n).file_name, "a.v2-crop.png");
}

#[test]
fn suffix_named_none_stays_apart_from_the_plain_fill() {
    let cut = |image: &str, s: &str| DownloadNode { filename_suffix: Some(s.to_string()), ..fill(image, "b.png") };
    let plan = plan_downloads(&vec![cut("abc", "none"), fill("abc", "a.png"), cut("abc", "none"), fill("abc", "c.png")]);
    assert_eq!(plan.len(), 3);
    assert_eq!(plan[0].names, ["b-none.png"]);
    assert_eq!(plan[1].names, ["a.png", "c.png"]);
    assert_eq!(plan[2].names, ["b-none.png"]);
    let plan = plan_downloads(&vec![cut("x", "y-none"), fill("x-y", "a.png")]);
    assert!(matches!(&plan[1].source, Source::Image(i) if i == "x-y"));
}

#[test]
fn urls_come_from_the_right_list() {
    let pair = |k: &str, v: &str| (k.to_string(), v.to_string());
    let fills = vec![pair("abc", "fill"), pair("g", "gif")];
    let pngs = vec![pair("1:2", "png")];
    let svgs = vec![pair("1:2", "svg")];
    let url = |n: DownloadNode| find_url(&item_of(n), &fills, &pngs, &svgs);
    assert_eq!(url(fill("abc", "a.png")).as_deref(), Some("fill"));
    assert_eq!(url(DownloadNode { gif_ref: Some("g".to_string()), ..fill("abc", "a.gif") }).as_deref(), Some("gif"));
    assert_eq!(url(node("1:2", "a.png")).as_deref(), Some("png"));
    assert_eq!(url(node("1:2", "a.SVG")).as_deref(), Some("svg"));
    assert_eq!(url(node("9:9", "a.png")), None);
}

#[test]
fn crops_are_shares_of_the_image() {
    let c = crop_rectangle(&rows(&[[0.5, 0.0, 0.25], [0.0, 0.3, 0.1]]), 200, 100);
    assert_eq!(c, Crop { left: 50, top: 10, width: 100, height: 30 });
    let c = crop_rectangle(&rows(&[[2.0, 0.0, 0.75], [0.0, 1.0, -3.0]]), 200, 100);
    assert_eq!(c, Crop { left: 150, top: 0, width: 50, height: 100 });
    let c = crop_rectangle(&rows(&[[f64::NAN, 0.0, 9.0], [0.0, -1.0, f64::NAN]]), 200, 100);
    assert_eq!(c, Crop { left: 200, top: 0, width: 0, height: 0 });
    assert_eq!(crop_rectangle(&vec![], 20, 10), Crop { left: 0, top: 0, width: 20, height: 10 });
}

#[test]
fn rasters_are_cropped_and_animations_are_not() {
    let t = rows(&[[0.5, 0.0, 0.5], [0.0, 0.5, 0.0]]);
    let cut = |file: &str| DownloadNode {
        needs_cropping: true,
        crop_transform: Some(rows(&[[0.5, 0.0, 0.5], [0.0, 0.5, 0.0]])),
        ..fill("abc", file)
    };
    let bytes = png(8, 4);
    match handle_file(&item_of(cut("a.png")), &bytes) {
        Ok(Handling::Cropped(c)) => assert_eq!(c, crop_rectangle(&t, 8, 4)),
        other => panic!("{other:?}"),
    }
    assert!(matches!(handle_file(&item_of(cut("a.GIF")), &bytes), Ok(Handling::Whole((8, 4)))));
    assert!(matches!(
        handle_file(&item_of(cut("a.svg")), &br#"<svg width="3" height="2">"#.to_vec()),
        Ok(Handling::Whole((3, 2)))
    ));
    assert!(matches!(handle_file(&item_of(cut("a.svg")), &bytes), Ok(Handling::Whole((0, 0)))));
    assert!(matches!(handle_file(&item_of(fill("abc", "a.png")), &bytes), Ok(Handling::Whole((8, 4)))));
    assert!(matches!(handle_file(&item_of(fill("abc", "a.png")), &vec![1, 2]), Ok(Handling::Whole((0, 0)))));
}

#[test]
fn drawings_are_read_as_text() {
    let size = |bytes: &[u8]| match handle_file(&item_of(node("1:1", "a.svg")), &bytes.to_vec()) {
        Ok(Handling::Whole(s)) => s,
        other => panic!("{other:?}"),
    };
    assert_eq!(size("<svg title=\"\u{e9}\u{20ac}\u{1f600}\" width=\"3\" height=\"2\">".as_bytes()), (3, 2));
    assert_eq!(size(b"\xff\xfe<svg title=\"\xc3\" width=\"3\" height=\"2\">\x80"), (3, 2));
    assert_eq!(size(b"<svg \xffwidth=\"9\" height=\"9\" width=\"3\">"), (3, 9));
    assert_eq!(size(b"<svg width=\"3\xff\" height=\"2\" viewBox=\"0 0 7 8\">"), (7, 8));
    assert_eq!(size(b""), (0, 0));
}

#[test]
fn svg_dims_prefer_double_quotes() {
    let size = |s: &str| parse_svg_dimensions(s);
    assert_eq!(size(r#"<svg width='7' width="5" height='3' height="4">"#), (5, 4));
    assert_eq!(size(r#"<svg width="5" width='7' height="4" height="6" height='3'>"#), (5, 4));
    assert_eq!(size("<svg width='7' width='5' height='3'>"), (7, 3));
    assert_eq!(size(r#"<svg viewBox='0 0 1 2' viewBox="0 0 3 4">"#), (3, 4));
    assert_eq!(size(r#"<svg data='x width="9" y' width='5' height="4">"#), (5, 4));
}

#[test]
fn svg_quotes_open_a_value_behind_an_equals_sign_only() {
    let size = |s: &str| parse_svg_dimensions(s);
    assert_eq!(size(r#"<svg title=it's width="52" height="24" data=it's>"#), (52, 24));
    assert_eq!(size(r#"<svg it's width="52" height="24"><text>it's</text>"#), (52, 24));
    assert_eq!(size(r#"<svg " width="52" height="24">"#), (52, 24));
    assert_eq!(size(r#"<svg data = 'a>b' width = "52" height= '24'>"#), (52, 24));
}

#[test]
fn svg_dims_come_from_the_opening_tag_alone() {
    let tag = r#"<svg data="a>b" width='52' height="24">"#;
    for head in ["", "x width=\"1\" ", "it's \" > "] {
        for tail in ["", "</svg>", "<svg width=\"1\" height=\"1\">", "' \" >"] {
            assert_eq!(parse_svg_dimensions(&format!("{head}{tag}{tail}")), (52, 24));
        }
    }
    assert_eq!(parse_svg_dimensions(r#"<svg a=">"#), (0, 0));
    assert_eq!(parse_svg_dimensions(r#"<svg a=">" width="5" height="4">"#), (5, 4));
}

#[test]
fn handling_follows_the_size_and_the_name() {
    let crop = |file: &str| {
        item_of(DownloadNode {
            needs_cropping: true,
            crop_transform: Some(rows(&[[0.5, 0.0, 0.25], [0.0, 0.5, 0.0]])),
            ..fill("f", file)
        })
    };
    let made = choose_handling(&crop("a.png"), Ok((8, 4)), "");
    assert!(matches!(made, Ok(Handling::Cropped(Crop { left: 2, top: 0, width: 4, height: 2 }))));
    assert!(matches!(choose_handling(&crop("a.png"), Ok((0, 4)), ""), Ok(Handling::Whole((0, 4)))));
    assert!(matches!(choose_handling(&crop("a.GIF"), Ok((8, 4)), ""), Ok(Handling::Whole((8, 4)))));
    assert!(matches!(choose_handling(&crop("a.gif"), Err("x".to_string()), ""), Ok(Handling::Whole((0, 0)))));
    let drawn = choose_handling(&crop("a.SVG"), Ok((8, 4)), "<svg width=\"3\" height=\"2\">");
    assert!(matches!(drawn, Ok(Handling::Whole((3, 2)))));
    assert_eq!(
        choose_handling(&crop("a.png"), Err("x".to_string()), "").unwrap_err(),
        "decoding downloaded image: x"
    );
}

#[test]
fn lengths_come_before_the_view_box() {
    let view: Vec<Double> = [0.0, 0.0, 30.5, 40.0].iter().map(|x| double(*x)).collect();
    assert_eq!(choose_size(Some(double(5.9)), Some(double(6.0)), &view), (5, 6));
    assert_eq!(choose_size(Some(double(5.0)), None, &view), (30, 40));
    assert_eq!(choose_size(Some(double(-5.0)), Some(double(6.0)), &view), (30, 40));
    assert_eq!(choose_size(Some(double(f64::NAN)), Some(double(6.0)), &Vec::new()), (0, 0));
    assert_eq!(choose_size(Some(double(1e10)), Some(double(0.5)), &view), (u32::MAX, 0));
    assert_eq!(choose_size(None, None, &view[..3].to_vec()), (0, 0));
}

#[test]
fn crop_of_nothing_keeps_the_image() {
    let n = DownloadNode {
        needs_cropping: true,
        crop_transform: Some(rows(&[[0.5, 0.0, 1.0], [0.0, 0.5, 0.0]])),
        ..fill("abc", "a.png")
    };
    assert!(matches!(handle_file(&item_of(n), &png(8, 4)), Ok(Handling::Whole((8, 4)))));
}

#[test]
fn crop_of_no_image_is_an_error() {
    let n = DownloadNode { needs_cropping: true, crop_transform: Some(vec![]), ..fill("abc", "a.png") };
    let fault = image::load_from_memory(&[1, 2]).unwrap_err().to_string();
    assert_eq!(
        handle_file(&item_of(n), &vec![1, 2]).unwrap_err(),
        format!("decoding downloaded image: {fault}")
    );
}

#[test]
fn summary_lists_files_aliases_and_missing_urls() {
    let mut sized = fill("abc", "a.png");
    sized.requires_image_dimensions = true;
    let plan = plan_downloads(&vec![sized, fill("abc", "b.png"), fill("abc", "c.png"), fill("x", "d.png")]);
    let one = describe_file(&plan[0], "/out/a.png", Handling::Whole((8, 4)));
    assert_eq!(one.css_vars.as_deref(), Some("--original-width: 8px; --original-height: 4px;"));
    let crop = Crop { left: 1, top: 1, width: 2, height: 3 };
    let two = describe_file(&plan[1], "/out/d.png", Handling::Cropped(crop));
    let text = summarize(&vec![one, two], &vec!["e.png".to_string(), "f.svg".to_string()], 6, "/out").unwrap();
    assert_eq!(
        text,
        "Downloaded 2 images to `/out`:\n\
         - a.png: 8x4 | --original-width: 8px; --original-height: 4px; (also requested as: b.png, c.png)\n\
         - d.png: 2x3 (cropped)\n\
         (missing URLs for: e.png, f.svg)"
    );
}

#[test]
fn summary_of_nothing_is_an_error() {
    assert_eq!(
        summarize(&vec![], &vec!["e.png".to_string()], 1, "/out").unwrap_err(),
        "no images could be resolved (1 requested, 1 missing URLs: e.png). The imageRef/gifRef values must come from the get-figma-data output for this file; node renders return null when the node cannot be exported."
    );
}
