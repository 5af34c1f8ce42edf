use brandsnap::greet;
use brandsnap::normalize::normalize_for_dedup;
use brandsnap::text::{is_data_uri_exec, parse_u32, split_char_exec, trim_str, ws_normalize};

#[test]
fn dims_variants_share_a_key() {
    assert_eq!(normalize_for_dedup("photo-300x200.jpg"), "photo.jpg");
    assert_eq!(normalize_for_dedup("photo-768x512.jpg"), "photo.jpg");
    assert_eq!(normalize_for_dedup("photo.jpg"), "photo.jpg");
}

#[test]
fn vendor_markers_are_stripped() {
    assert_eq!(normalize_for_dedup("pic-cc_ft_768.jpg"), "pic.jpg");
    assert_eq!(normalize_for_dedup("pic_ft_38.jpg"), "pic.jpg");
}

#[test]
fn bare_resolution_suffix_is_stripped() {
    assert_eq!(normalize_for_dedup("img_1536.png"), "img.png");
    // two digits are below the bare-suffix threshold of three
    assert_eq!(normalize_for_dedup("img_15.png"), "img_15.png");
}

#[test]
fn density_suffix_is_stripped() {
    assert_eq!(normalize_for_dedup("logo@2x.png"), "logo.png");
}

#[test]
fn named_size_suffixes_are_stripped() {
    assert_eq!(normalize_for_dedup("hero-thumbnail.jpg"), "hero.jpg");
    assert_eq!(normalize_for_dedup("hero-scaled.webp"), "hero.webp");
    assert_eq!(normalize_for_dedup("hero_small.gif"), "hero.gif");
}

#[test]
fn query_and_fragment_are_cut() {
    assert_eq!(normalize_for_dedup("a.jpg?w=100#frag"), "a.jpg");
    assert_eq!(normalize_for_dedup("a.jpg#frag?x"), "a.jpg");
}

#[test]
fn markers_chain_in_order() {
    // the dimension suffix goes first, which exposes a bare suffix
    assert_eq!(normalize_for_dedup("a_3840-200x100.jpg"), "a.jpg");
}

#[test]
fn no_extension_means_no_stripping() {
    assert_eq!(normalize_for_dedup("path/to/thing"), "path/to/thing");
    assert_eq!(normalize_for_dedup("archive-300x200"), "archive-300x200");
}

#[test]
fn data_uri_detection() {
    assert!(is_data_uri_exec("data:image/png;base64,AAAA"));
    assert!(!is_data_uri_exec("https://example.com/a.png"));
    assert!(!is_data_uri_exec("dat"));
}

#[test]
fn whitespace_normalization() {
    assert_eq!(ws_normalize("  Hello   world  "), "Hello world");
    assert_eq!(ws_normalize("\t a \n b \r"), "a b");
    assert_eq!(ws_normalize("   "), "");
}

#[test]
fn trimming() {
    assert_eq!(trim_str("  x y  "), "x y");
    assert_eq!(trim_str(""), "");
}

#[test]
fn decimal_parsing() {
    assert_eq!(parse_u32("123"), Some(123));
    assert_eq!(parse_u32("+7"), Some(7));
    assert_eq!(parse_u32("12a"), None);
    assert_eq!(parse_u32(""), None);
    assert_eq!(parse_u32("4294967295"), Some(u32::MAX));
    assert_eq!(parse_u32("4294967296"), None);
}

#[test]
fn splitting() {
    let parts = split_char_exec("a,b,,c", ',');
    assert_eq!(parts, vec!["a", "b", "", "c"]);
    let parts = split_char_exec("", ',');
    assert_eq!(parts, vec![""]);
}

#[test]
fn greeting() {
    assert_eq!(greet("World"), "Hello, World! You've been greeted from Rust!");
}
