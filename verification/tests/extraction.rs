use brandsnap::dom::DomElement;
use brandsnap::extract::{extract_from_elements, extract_markup_assets};
use brandsnap::merge::{merge_images, merge_text};
use brandsnap::model::{ImageInfo, TextBlock};

const BASE: &str = "https://example.com/page/";

fn el(tag: &str, attrs: &[(&str, &str)], texts: &[&str]) -> DomElement {
    DomElement {
        tag: tag.to_string(),
        attrs: attrs.iter().map(|(k, v)| (k.to_string(), v.to_string())).collect(),
        texts: texts.iter().map(|t| t.to_string()).collect(),
    }
}

fn img(src: &str, alt: &str, w: u32, h: u32) -> ImageInfo {
    ImageInfo { src: src.to_string(), alt: alt.to_string(), width: w, height: h }
}

fn tb(tag: &str, text: &str) -> TextBlock {
    TextBlock { tag: tag.to_string(), text: text.to_string() }
}

#[test]
fn img_attributes_and_srcset() {
    let elems = vec![el(
        "img",
        &[
            ("src", "/a-300x200.jpg"),
            ("alt", "A"),
            ("width", "100"),
            ("height", "50"),
            ("data-src", "/a-768x512.jpg"),
            ("srcset", "/b.jpg 1x, /c.jpg 2x"),
        ],
        &[],
    )];
    let (images, _) = extract_from_elements(&elems, BASE);
    let srcs: Vec<&str> = images.iter().map(|i| i.src.as_str()).collect();
    assert_eq!(
        srcs,
        vec![
            "https://example.com/a-300x200.jpg",
            "https://example.com/b.jpg",
            "https://example.com/c.jpg",
        ],
    );
    assert_eq!(images[0].alt, "A");
    assert_eq!(images[0].width, 100);
    assert_eq!(images[0].height, 50);
    // source-set entries inherit the alt text but not the dimensions
    assert_eq!(images[1].alt, "A");
    assert_eq!(images[1].width, 0);
}

#[test]
fn data_uris_never_appear() {
    let elems = vec![
        el("img", &[("src", "data:image/png;base64,0123456789abcdef")], &[]),
        el("div", &[("style", "background: url(data:image/gif;base64,AAAA) no-repeat")], &[]),
    ];
    let (images, _) = extract_from_elements(&elems, BASE);
    assert!(images.is_empty());
}

#[test]
fn image_file_hyperlinks() {
    let elems = vec![
        el("a", &[("href", "/pics/photo.JPG")], &[]),
        el("a", &[("href", "/doc.pdf")], &[]),
    ];
    let (images, _) = extract_from_elements(&elems, BASE);
    assert_eq!(images.len(), 1);
    assert_eq!(images[0].src, "https://example.com/pics/photo.JPG");
    assert_eq!(images[0].alt, "");
}

#[test]
fn social_preview_and_poster_labels() {
    let elems = vec![
        el("meta", &[("property", "og:image"), ("content", "/og.png")], &[]),
        el("meta", &[("name", "description"), ("content", "not an image")], &[]),
        el("video", &[("poster", "/p.jpg")], &[]),
    ];
    let (images, _) = extract_from_elements(&elems, BASE);
    assert_eq!(images.len(), 2);
    assert_eq!(images[0].src, "https://example.com/og.png");
    assert_eq!(images[0].alt, "Social preview");
    assert_eq!(images[1].src, "https://example.com/p.jpg");
    assert_eq!(images[1].alt, "Video poster");
}

#[test]
fn style_backgrounds_extracted_gradients_dropped() {
    let elems = vec![
        el("div", &[("style", "background: url('/bg.png') no-repeat")], &[]),
        el("div", &[("style", "background: url(legacy-gradient.svg)")], &[]),
        el("div", &[("style", "color: red")], &[]),
    ];
    let (images, _) = extract_from_elements(&elems, BASE);
    assert_eq!(images.len(), 1);
    assert_eq!(images[0].src, "https://example.com/bg.png");
}

#[test]
fn script_payload_scan() {
    let script = r#"var imgs = ["https:\/\/cdn.example.com\/one.jpg", '/two-gallery.png'];"#;
    let elems = vec![el("script", &[], &[script])];
    let (images, _) = extract_from_elements(&elems, BASE);
    let srcs: Vec<&str> = images.iter().map(|i| i.src.as_str()).collect();
    assert_eq!(
        srcs,
        vec!["https://cdn.example.com/one.jpg", "https://example.com/two-gallery.png"],
    );
}

#[test]
fn schema_relative_script_tokens_get_https() {
    let script = r#"x = "//cdn.example.com/pics/three.webp";"#;
    let elems = vec![el("script", &[], &[script])];
    let (images, _) = extract_from_elements(&elems, BASE);
    assert_eq!(images.len(), 1);
    assert_eq!(images[0].src, "https://cdn.example.com/pics/three.webp");
}

#[test]
fn text_fragments_collapse_dedupe_and_drop_short() {
    let elems = vec![
        el("h1", &[], &["Welcome", "home"]),
        el("p", &[], &[" ab "]),
        el("p", &[], &["Hello   world"]),
        el("li", &[], &["Hello world"]),
    ];
    let (_, texts) = extract_from_elements(&elems, BASE);
    let pairs: Vec<(&str, &str)> = texts.iter().map(|t| (t.tag.as_str(), t.text.as_str())).collect();
    assert_eq!(pairs, vec![("H1", "Welcome home"), ("P", "Hello world")]);
}

#[test]
fn markup_end_to_end() {
    let html = r#"<html><body><h1>Big Title</h1><img src="/x-300x200.jpg" alt="X"><a href="/y.PNG">y</a></body></html>"#;
    let (images, texts) = extract_markup_assets(html, "https://example.com/");
    let srcs: Vec<&str> = images.iter().map(|i| i.src.as_str()).collect();
    assert_eq!(srcs, vec!["https://example.com/x-300x200.jpg", "https://example.com/y.PNG"]);
    assert_eq!(images[0].alt, "X");
    assert_eq!(texts.len(), 1);
    assert_eq!(texts[0].tag, "H1");
    assert_eq!(texts[0].text, "Big Title");
}

#[test]
fn merge_is_order_stable_and_source_prioritized() {
    let a = img("https://x/a.jpg", "", 0, 0);
    let b = img("https://x/b-300x200.jpg", "rendered", 300, 200);
    let b2 = img("https://x/b-768x512.jpg", "raw", 0, 0);
    let c = img("https://x/c.jpg", "", 0, 0);
    let merged = merge_images(&vec![a, b], &vec![b2, c]);
    let srcs: Vec<&str> = merged.iter().map(|i| i.src.as_str()).collect();
    assert_eq!(srcs, vec!["https://x/a.jpg", "https://x/b-300x200.jpg", "https://x/c.jpg"]);
    // the kept instance is the rendering pass's, not the raw pass's
    assert_eq!(merged[1].alt, "rendered");
}

#[test]
fn merge_drops_data_uris_from_either_pass() {
    let merged = merge_images(
        &vec![img("data:image/png;base64,AAAA", "", 0, 0)],
        &vec![img("https://x/ok.jpg", "", 0, 0)],
    );
    assert_eq!(merged.len(), 1);
    assert_eq!(merged[0].src, "https://x/ok.jpg");
}

#[test]
fn merge_text_dedupes_and_filters() {
    let merged = merge_text(
        &vec![tb("H1", "Hello   world"), tb("P", "a")],
        &vec![tb("P", "Hello world"), tb("P", "Second paragraph")],
    );
    let pairs: Vec<(&str, &str)> = merged.iter().map(|t| (t.tag.as_str(), t.text.as_str())).collect();
    assert_eq!(pairs, vec![("H1", "Hello world"), ("P", "Second paragraph")]);
}
