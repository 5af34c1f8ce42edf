//! The raw-markup extractor: given the parsed element model and a base URL,
//! runs a fixed, prioritized set of image-discovery strategies (image
//! elements with their lazy-load attributes and source sets, picture sources,
//! image-file hyperlinks, social-preview metadata, video posters, inline
//! background styles, and an inline-script payload scan) and collects text
//! fragments from a fixed list of block-level tags. Candidates are then
//! deduplicated by normalized key, stripped of data URIs, and capped.

use vstd::prelude::*;
use vstd::string::*;

use crate::dom::{DomElement, DomNodeView, dom_of, parse_markup};
use crate::merge::{cap_seq, dedup_images, dedup_text, dedup_images_exec, dedup_text_exec};
use crate::model::{ImageInfo, ImageView, TextBlock, TextView};
use crate::resolve::{resolved, resolve_url};
use crate::text::{
    contains_ci, contains_seq, contains_str, ends_with_ci, find_char, is_data_uri,
    is_data_uri_exec, is_prefix_of, is_suffix_of, lower_seq, parse_u32, parse_u32_spec,
    split_by, split_char_exec, split_by_exec, starts_with_str, str_eq, trim_char, trim_char_str,
    trim_spec, trim_str, unescape_slashes, unescape_slashes_exec, upto_char,
};

verus! {

/// The value of the first attribute named `name`, if any.
pub open spec fn attr_of(attrs: Seq<(Seq<char>, Seq<char>)>, name: Seq<char>) -> Option<Seq<char>>
    decreases attrs.len(),
{
    if attrs.len() == 0 {
        None
    } else if attrs[0].0 == name {
        Some(attrs[0].1)
    } else {
        attr_of(attrs.subrange(1, attrs.len() as int), name)
    }
}

/// Looks up the first attribute named `name` on an element.
fn get_attr(e: &DomElement, name: &str) -> (r: Option<String>)
    ensures
        r.deep_view() == attr_of(e@.1, name@),
{
    let n = e.attrs.len();
    proof {
        assert(e@.1.subrange(0, n as int) =~= e@.1);
    }
    let mut i: usize = 0;
    while i < n
        invariant
            n == e.attrs.len(),
            n == e@.1.len(),
            i <= n,
            attr_of(e@.1, name@) == attr_of(e@.1.subrange(i as int, n as int), name@),
        decreases n - i,
    {
        proof {
            assert(e@.1[i as int] == e.attrs@[i as int].deep_view());
            assert(e@.1.subrange(i as int, n as int)[0] == e@.1[i as int]);
            assert(e@.1.subrange(i as int, n as int).subrange(1, (n - i) as int) =~= e@.1.subrange(
                i + 1,
                n as int,
            ));
        }
        if str_eq(e.attrs[i].0.as_str(), name) {
            return Some(e.attrs[i].1.clone());
        }
        i = i + 1;
    }
    proof {
        assert(e@.1.subrange(n as int, n as int) =~= Seq::<(Seq<char>, Seq<char>)>::empty());
    }
    None
}

/// The element's `alt` text, or empty.
pub open spec fn alt_of(n: DomNodeView) -> Seq<char> {
    match attr_of(n.1, "alt"@) {
        Some(v) => v,
        None => Seq::empty(),
    }
}

/// The element's `width`/`height` attribute read as a number, 0 where absent
/// or unparsable.
pub open spec fn dim_of(n: DomNodeView, name: Seq<char>) -> u32 {
    match attr_of(n.1, name) {
        Some(v) => match parse_u32_spec(v) {
            Some(x) => x,
            None => 0,
        },
        None => 0,
    }
}

fn alt_of_exec(e: &DomElement) -> (r: String)
    ensures
        r@ == alt_of(e@),
{
    match get_attr(e, "alt") {
        Some(v) => v,
        None => String::new(),
    }
}

fn dim_of_exec(e: &DomElement, name: &str) -> (r: u32)
    ensures
        r == dim_of(e@, name@),
{
    match get_attr(e, name) {
        Some(v) => match parse_u32(v.as_str()) {
            Some(x) => x,
            None => 0,
        },
        None => 0,
    }
}

/// The URL token of a source attribute value: the part before the first
/// comma, trimmed, up to the first space.
pub open spec fn attr_token(v: Seq<char>) -> Seq<char> {
    let b = trim_spec(v.take(upto_char(v, ',')));
    b.take(upto_char(b, ' '))
}

fn attr_token_exec(v: &str) -> (r: String)
    ensures
        r@ == attr_token(v@),
{
    let c = find_char(v, ',');
    proof {
        crate::text::lemma_upto_char(v@, ',');
    }
    let a = v.substring_char(0, c);
    let b = trim_str(a);
    let sp = find_char(b.as_str(), ' ');
    proof {
        crate::text::lemma_upto_char(b@, ' ');
    }
    b.as_str().substring_char(0, sp).to_owned()
}

/// The URL token of one source-set entry: trimmed, up to the first space.
pub open spec fn entry_token(e: Seq<char>) -> Seq<char> {
    let b = trim_spec(e);
    b.take(upto_char(b, ' '))
}

fn entry_token_exec(e: &str) -> (r: String)
    ensures
        r@ == entry_token(e@),
{
    let b = trim_str(e);
    let sp = find_char(b.as_str(), ' ');
    proof {
        crate::text::lemma_upto_char(b@, ' ');
    }
    b.as_str().substring_char(0, sp).to_owned()
}

/// The candidate an image element contributes for one source attribute.
pub open spec fn img_attr_cand(n: DomNodeView, base: Seq<char>, name: Seq<char>) -> Seq<
    ImageView,
> {
    match attr_of(n.1, name) {
        Some(v) => {
            let t = attr_token(v);
            if t.len() == 0 {
                Seq::empty()
            } else {
                seq![
                    ImageView {
                        src: resolved(base, t),
                        alt: alt_of(n),
                        width: dim_of(n, "width"@),
                        height: dim_of(n, "height"@),
                    },
                ]
            }
        },
        None => Seq::empty(),
    }
}

fn push_img_attr_cand(
    out: &mut Vec<ImageInfo>,
    e: &DomElement,
    base: &str,
    name: &str,
    alt: &String,
    w: u32,
    h: u32,
)
    requires
        alt@ == alt_of(e.deep_view()),
        w == dim_of(e.deep_view(), "width"@),
        h == dim_of(e.deep_view(), "height"@),
    ensures
        final(out).deep_view() == old(out).deep_view() + img_attr_cand(e.deep_view(), base@, name@),
{
    let ghost o = out.deep_view();
    match get_attr(e, name) {
        Some(v) => {
            let t = attr_token_exec(v.as_str());
            if t.as_str().unicode_len() > 0 {
                let src = resolve_url(base, t.as_str());
                out.push(ImageInfo { src, alt: alt.clone(), width: w, height: h });
                proof {
                    assert(out.deep_view() =~= o + img_attr_cand(e.deep_view(), base@, name@));
                }
            } else {
                proof {
                    assert(out.deep_view() =~= o + img_attr_cand(e.deep_view(), base@, name@));
                }
            }
        },
        None => {
            proof {
                assert(out.deep_view() =~= o + img_attr_cand(e.deep_view(), base@, name@));
            }
        },
    }
}

/// Candidates of a source-set value's entries, in order.
pub open spec fn srcset_cands_from(
    entries: Seq<Seq<char>>,
    base: Seq<char>,
    alt: Seq<char>,
) -> Seq<ImageView>
    decreases entries.len(),
{
    if entries.len() == 0 {
        Seq::empty()
    } else {
        srcset_cands_from(entries.drop_last(), base, alt) + {
            let t = entry_token(entries.last());
            if t.len() == 0 {
                Seq::empty()
            } else {
                seq![ImageView { src: resolved(base, t), alt: alt, width: 0, height: 0 }]
            }
        }
    }
}

/// Candidates of a comma-separated source-set attribute value.
pub open spec fn srcset_cands(v: Seq<char>, base: Seq<char>, alt: Seq<char>) -> Seq<ImageView> {
    srcset_cands_from(split_by(v, seq![',']), base, alt)
}

fn push_srcset_cands(out: &mut Vec<ImageInfo>, v: &str, base: &str, alt: &String)
    ensures
        final(out).deep_view() == old(out).deep_view() + srcset_cands(v@, base@, alt@),
{
    let ghost o = out.deep_view();
    let entries = split_char_exec(v, ',');
    let ghost ev = entries.deep_view();
    let n = entries.len();
    proof {
        assert(ev.take(0) =~= Seq::<Seq<char>>::empty());
        assert(o + srcset_cands_from(ev.take(0), base@, alt@) =~= o);
    }
    let mut i: usize = 0;
    while i < n
        invariant
            n == entries.len(),
            ev == entries.deep_view(),
            i <= n,
            out.deep_view() == o + srcset_cands_from(ev.take(i as int), base@, alt@),
        decreases n - i,
    {
        proof {
            assert(ev.take(i + 1).drop_last() =~= ev.take(i as int));
            assert(ev.take(i + 1).last() == ev[i as int]);
            assert(entries@[i as int].deep_view() == ev[i as int]);
        }
        let t = entry_token_exec(entries[i].as_str());
        if t.as_str().unicode_len() > 0 {
            let src = resolve_url(base, t.as_str());
            let ghost before = out.deep_view();
            out.push(ImageInfo { src, alt: alt.clone(), width: 0, height: 0 });
            proof {
                assert(out.deep_view() =~= before + seq![
                    ImageView {
                        src: resolved(base@, entry_token(ev[i as int])),
                        alt: alt@,
                        width: 0,
                        height: 0,
                    },
                ]);
                assert(out.deep_view() =~= o + srcset_cands_from(ev.take(i + 1), base@, alt@));
            }
        } else {
            proof {
                assert(out.deep_view() =~= o + srcset_cands_from(ev.take(i + 1), base@, alt@));
            }
        }
        i = i + 1;
    }
    proof {
        assert(ev.take(n as int) =~= ev);
    }
}

/// All candidates of one image element: every known source attribute in
/// fixed order, then every source-set entry.
pub open spec fn img_cands(n: DomNodeView, base: Seq<char>) -> Seq<ImageView> {
    if n.0 != "img"@ {
        Seq::empty()
    } else {
        img_attr_cand(n, base, "src"@) + img_attr_cand(n, base, "data-src"@) + img_attr_cand(
            n,
            base,
            "data-lazy-src"@,
        ) + img_attr_cand(n, base, "data-original"@) + img_attr_cand(n, base, "data-lazy"@)
            + img_attr_cand(n, base, "data-url"@) + img_attr_cand(n, base, "data-image"@)
            + img_attr_cand(n, base, "data-bg"@) + img_attr_cand(n, base, "data-hi-res-src"@)
            + img_attr_cand(n, base, "data-retina"@) + img_attr_cand(n, base, "data-full-src"@)
            + img_attr_cand(n, base, "data-zoom-image"@) + img_attr_cand(
            n,
            base,
            "data-large-file"@,
        ) + img_attr_cand(n, base, "data-medium-file"@) + match attr_of(n.1, "srcset"@) {
            Some(v) => srcset_cands(v, base, alt_of(n)),
            None => Seq::empty(),
        }
    }
}

fn push_img_cands(out: &mut Vec<ImageInfo>, e: &DomElement, base: &str)
    ensures
        final(out).deep_view() == old(out).deep_view() + img_cands(e.deep_view(), base@),
{
    let ghost o = out.deep_view();
    if !str_eq(e.tag.as_str(), "img") {
        proof {
            assert(out.deep_view() =~= o + img_cands(e.deep_view(), base@));
        }
        return ;
    }
    let alt = alt_of_exec(e);
    let w = dim_of_exec(e, "width");
    let h = dim_of_exec(e, "height");
    push_img_attr_cand(out, e, base, "src", &alt, w, h);
    push_img_attr_cand(out, e, base, "data-src", &alt, w, h);
    push_img_attr_cand(out, e, base, "data-lazy-src", &alt, w, h);
    push_img_attr_cand(out, e, base, "data-original", &alt, w, h);
    push_img_attr_cand(out, e, base, "data-lazy", &alt, w, h);
    push_img_attr_cand(out, e, base, "data-url", &alt, w, h);
    push_img_attr_cand(out, e, base, "data-image", &alt, w, h);
    push_img_attr_cand(out, e, base, "data-bg", &alt, w, h);
    push_img_attr_cand(out, e, base, "data-hi-res-src", &alt, w, h);
    push_img_attr_cand(out, e, base, "data-retina", &alt, w, h);
    push_img_attr_cand(out, e, base, "data-full-src", &alt, w, h);
    push_img_attr_cand(out, e, base, "data-zoom-image", &alt, w, h);
    push_img_attr_cand(out, e, base, "data-large-file", &alt, w, h);
    push_img_attr_cand(out, e, base, "data-medium-file", &alt, w, h);
    match get_attr(e, "srcset") {
        Some(v) => {
            push_srcset_cands(out, v.as_str(), base, &alt);
        },
        None => {},
    }
    proof {
        assert(out.deep_view() =~= o + img_cands(e.deep_view(), base@));
    }
}

/// Candidates of a picture-style alternate-source element.
pub open spec fn source_cands(n: DomNodeView, base: Seq<char>) -> Seq<ImageView> {
    if n.0 != "source"@ {
        Seq::empty()
    } else {
        match attr_of(n.1, "srcset"@) {
            Some(v) => srcset_cands(v, base, Seq::empty()),
            None => Seq::empty(),
        }
    }
}

fn push_source_cands(out: &mut Vec<ImageInfo>, e: &DomElement, base: &str)
    ensures
        final(out).deep_view() == old(out).deep_view() + source_cands(e.deep_view(), base@),
{
    let ghost o = out.deep_view();
    if str_eq(e.tag.as_str(), "source") {
        match get_attr(e, "srcset") {
            Some(v) => {
                let empty_alt = String::new();
                push_srcset_cands(out, v.as_str(), base, &empty_alt);
            },
            None => {},
        }
    }
    proof {
        assert(out.deep_view() =~= o + source_cands(e.deep_view(), base@));
    }
}

/// The hyperlink target names an image file directly.
pub open spec fn is_image_ref(h: Seq<char>) -> bool {
    ||| is_suffix_of(".jpg"@, lower_seq(h))
    ||| is_suffix_of(".jpeg"@, lower_seq(h))
    ||| is_suffix_of(".png"@, lower_seq(h))
    ||| is_suffix_of(".gif"@, lower_seq(h))
    ||| is_suffix_of(".webp"@, lower_seq(h))
    ||| is_suffix_of(".svg"@, lower_seq(h))
    ||| is_suffix_of(".avif"@, lower_seq(h))
}

/// Candidate of a hyperlink element whose target ends in an image extension.
pub open spec fn anchor_cands(n: DomNodeView, base: Seq<char>) -> Seq<ImageView> {
    if n.0 != "a"@ {
        Seq::empty()
    } else {
        match attr_of(n.1, "href"@) {
            Some(h) => if is_image_ref(h) {
                seq![
                    ImageView {
                        src: resolved(base, h),
                        alt: Seq::empty(),
                        width: 0,
                        height: 0,
                    },
                ]
            } else {
                Seq::empty()
            },
            None => Seq::empty(),
        }
    }
}

fn push_anchor_cands(out: &mut Vec<ImageInfo>, e: &DomElement, base: &str)
    ensures
        final(out).deep_view() == old(out).deep_view() + anchor_cands(e.deep_view(), base@),
{
    let ghost o = out.deep_view();
    if str_eq(e.tag.as_str(), "a") {
        match get_attr(e, "href") {
            Some(h) => {
                let hit = ends_with_ci(h.as_str(), ".jpg") || ends_with_ci(h.as_str(), ".jpeg")
                    || ends_with_ci(h.as_str(), ".png") || ends_with_ci(h.as_str(), ".gif")
                    || ends_with_ci(h.as_str(), ".webp") || ends_with_ci(h.as_str(), ".svg")
                    || ends_with_ci(h.as_str(), ".avif");
                if hit {
                    let src = resolve_url(base, h.as_str());
                    out.push(ImageInfo { src, alt: String::new(), width: 0, height: 0 });
                }
            },
            None => {},
        }
    }
    proof {
        assert(out.deep_view() =~= o + anchor_cands(e.deep_view(), base@));
    }
}

/// Candidate of a social-preview metadata element.
pub open spec fn meta_cands(n: DomNodeView, base: Seq<char>) -> Seq<ImageView> {
    if n.0 == "meta"@ && (attr_of(n.1, "property"@) == Some("og:image"@) || attr_of(
        n.1,
        "name"@,
    ) == Some("twitter:image"@) || attr_of(n.1, "itemprop"@) == Some("image"@)) {
        match attr_of(n.1, "content"@) {
            Some(c) => seq![
                ImageView {
                    src: resolved(base, c),
                    alt: "Social preview"@,
                    width: 0,
                    height: 0,
                },
            ],
            None => Seq::empty(),
        }
    } else {
        Seq::empty()
    }
}

fn attr_equals(e: &DomElement, name: &str, value: &str) -> (r: bool)
    ensures
        r == (attr_of(e@.1, name@) == Some(value@)),
{
    match get_attr(e, name) {
        Some(v) => str_eq(v.as_str(), value),
        None => false,
    }
}

fn push_meta_cands(out: &mut Vec<ImageInfo>, e: &DomElement, base: &str)
    ensures
        final(out).deep_view() == old(out).deep_view() + meta_cands(e.deep_view(), base@),
{
    let ghost o = out.deep_view();
    if str_eq(e.tag.as_str(), "meta") {
        let social = attr_equals(e, "property", "og:image") || attr_equals(
            e,
            "name",
            "twitter:image",
        ) || attr_equals(e, "itemprop", "image");
        if social {
            match get_attr(e, "content") {
                Some(c) => {
                    let src = resolve_url(base, c.as_str());
                    out.push(
                        ImageInfo {
                            src,
                            alt: String::from_str("Social preview"),
                            width: 0,
                            height: 0,
                        },
                    );
                },
                None => {},
            }
        }
    }
    proof {
        assert(out.deep_view() =~= o + meta_cands(e.deep_view(), base@));
    }
}

/// Candidate of a video element's poster image.
pub open spec fn video_cands(n: DomNodeView, base: Seq<char>) -> Seq<ImageView> {
    if n.0 != "video"@ {
        Seq::empty()
    } else {
        match attr_of(n.1, "poster"@) {
            Some(p) => seq![
                ImageView {
                    src: resolved(base, p),
                    alt: "Video poster"@,
                    width: 0,
                    height: 0,
                },
            ],
            None => Seq::empty(),
        }
    }
}

fn push_video_cands(out: &mut Vec<ImageInfo>, e: &DomElement, base: &str)
    ensures
        final(out).deep_view() == old(out).deep_view() + video_cands(e.deep_view(), base@),
{
    let ghost o = out.deep_view();
    if str_eq(e.tag.as_str(), "video") {
        match get_attr(e, "poster") {
            Some(p) => {
                let src = resolve_url(base, p.as_str());
                out.push(ImageInfo { src, alt: String::from_str("Video poster"), width: 0, height: 0 });
            },
            None => {},
        }
    }
    proof {
        assert(out.deep_view() =~= o + video_cands(e.deep_view(), base@));
    }
}

/// The cleaned argument of one `url(...)` occurrence: up to the closing
/// parenthesis, trimmed, with surrounding quotes removed.
pub open spec fn style_url_arg(p: Seq<char>) -> Seq<char> {
    trim_char(trim_char(trim_spec(p.take(upto_char(p, ')'))), '"'), '\'')
}

/// Candidate of one split part of a style value, after a `url(` occurrence.
pub open spec fn style_part_cand(p: Seq<char>, base: Seq<char>) -> Seq<ImageView> {
    if upto_char(p, ')') < p.len() {
        let s = style_url_arg(p);
        if s.len() > 0 && !is_data_uri(s) && !contains_seq(s, "gradient"@) {
            seq![ImageView { src: resolved(base, s), alt: Seq::empty(), width: 0, height: 0 }]
        } else {
            Seq::empty()
        }
    } else {
        Seq::empty()
    }
}

/// Candidates of the parts after each `url(` occurrence (the part before the
/// first occurrence contributes nothing).
pub open spec fn style_parts_cands(parts: Seq<Seq<char>>, base: Seq<char>) -> Seq<ImageView>
    decreases parts.len(),
{
    if parts.len() <= 1 {
        Seq::empty()
    } else {
        style_parts_cands(parts.drop_last(), base) + style_part_cand(parts.last(), base)
    }
}

/// Candidates of an inline style attribute holding a background declaration.
pub open spec fn style_cands(n: DomNodeView, base: Seq<char>) -> Seq<ImageView> {
    match attr_of(n.1, "style"@) {
        Some(st) => if contains_seq(st, "background"@) {
            style_parts_cands(split_by(st, "url("@), base)
        } else {
            Seq::empty()
        },
        None => Seq::empty(),
    }
}

fn push_style_part_cand(out: &mut Vec<ImageInfo>, p: &str, base: &str)
    ensures
        final(out).deep_view() == old(out).deep_view() + style_part_cand(p@, base@),
{
    let ghost o = out.deep_view();
    let close = find_char(p, ')');
    proof {
        crate::text::lemma_upto_char(p@, ')');
    }
    if close < p.unicode_len() {
        let inner = p.substring_char(0, close);
        let s1 = trim_str(inner);
        let s2 = trim_char_str(s1.as_str(), '"');
        let s3 = trim_char_str(s2.as_str(), '\'');
        if s3.as_str().unicode_len() > 0 && !is_data_uri_exec(s3.as_str()) && !contains_str(
            s3.as_str(),
            "gradient",
        ) {
            let src = resolve_url(base, s3.as_str());
            out.push(ImageInfo { src, alt: String::new(), width: 0, height: 0 });
        }
    }
    proof {
        assert(out.deep_view() =~= o + style_part_cand(p@, base@));
    }
}

fn push_style_cands(out: &mut Vec<ImageInfo>, e: &DomElement, base: &str)
    ensures
        final(out).deep_view() == old(out).deep_view() + style_cands(e.deep_view(), base@),
{
    let ghost o = out.deep_view();
    match get_attr(e, "style") {
        Some(st) => {
            if contains_str(st.as_str(), "background") {
                proof {
                    reveal_strlit("url(");
                }
                let parts = split_by_exec(st.as_str(), "url(");
                let ghost pv = parts.deep_view();
                let n = parts.len();
                let mut i: usize = 1;
                proof {
                    crate::text::lemma_split_from_len(st@, "url("@, Seq::empty());
                    assert(pv.len() >= 1);
                    assert(pv.take(1).len() == 1);
                    assert(style_parts_cands(pv.take(1), base@) =~= Seq::<ImageView>::empty());
                    assert(out.deep_view() =~= o + style_parts_cands(pv.take(1), base@));
                }
                while i < n
                    invariant
                        n == parts.len(),
                        pv == parts.deep_view(),
                        1 <= i <= n || (i == 1 && n <= 1),
                                    out.deep_view() == o + style_parts_cands(
                            pv.take(if i as int <= pv.len() {
                                i as int
                            } else {
                                pv.len() as int
                            }),
                            base@,
                        ),
                    decreases n - i,
                {
                    proof {
                        assert(pv.take(i + 1).drop_last() =~= pv.take(i as int));
                        assert(pv.take(i + 1).last() == pv[i as int]);
                        assert(parts@[i as int].deep_view() == pv[i as int]);
                    }
                    push_style_part_cand(out, parts[i].as_str(), base);
                    i = i + 1;
                }
                proof {
                    assert(pv.len() >= 1);
                    if n >= 1 {
                        assert(pv.take(pv.len() as int) =~= pv);
                        assert(out.deep_view() =~= o + style_parts_cands(pv, base@));
                    } else {
                        assert(false);
                    }
                }
            }
        },
        None => {},
    }
    proof {
        assert(out.deep_view() =~= o + style_cands(e.deep_view(), base@));
    }
}

/// The concatenation of an element's text nodes.
pub open spec fn concat_texts(ts: Seq<Seq<char>>) -> Seq<char>
    decreases ts.len(),
{
    if ts.len() == 0 {
        Seq::empty()
    } else {
        concat_texts(ts.drop_last()) + ts.last()
    }
}

fn concat_texts_exec(e: &DomElement) -> (r: String)
    ensures
        r@ == concat_texts(e@.2),
{
    let ghost tv = e@.2;
    let n = e.texts.len();
    let mut out = String::new();
    proof {
        assert(tv.take(0) =~= Seq::<Seq<char>>::empty());
        assert(out@ =~= concat_texts(tv.take(0)));
    }
    let mut i: usize = 0;
    while i < n
        invariant
            n == e.texts.len(),
            tv == e@.2,
            n == tv.len(),
            i <= n,
            out@ == concat_texts(tv.take(i as int)),
        decreases n - i,
    {
        proof {
            assert(tv.take(i + 1).drop_last() =~= tv.take(i as int));
            assert(tv.take(i + 1).last() == tv[i as int]);
            assert(e.texts@[i as int].deep_view() == tv[i as int]);
        }
        out.append(e.texts[i].as_str());
        i = i + 1;
    }
    proof {
        assert(tv.take(n as int) =~= tv);
    }
    out
}

/// The token has an image extension somewhere in its lower-cased form.
pub open spec fn has_image_ext(u: Seq<char>) -> bool {
    ||| contains_seq(lower_seq(u), ".jpg"@)
    ||| contains_seq(lower_seq(u), ".jpeg"@)
    ||| contains_seq(lower_seq(u), ".png"@)
    ||| contains_seq(lower_seq(u), ".gif"@)
    ||| contains_seq(lower_seq(u), ".webp"@)
    ||| contains_seq(lower_seq(u), ".avif"@)
    ||| contains_seq(lower_seq(u), ".svg"@)
}

/// Candidate of one quoted token of an inline script payload: trimmed,
/// slash-unescaped, length-bounded, holding an image extension, and shaped
/// like an absolute, schema-relative or site-relative reference.
pub open spec fn script_token_cand(tok: Seq<char>, base: Seq<char>) -> Seq<ImageView> {
    let u = unescape_slashes(trim_spec(tok));
    if u.len() > 10 && u.len() < 2000 && has_image_ext(u) {
        if is_prefix_of("http"@, u) {
            seq![ImageView { src: u, alt: Seq::empty(), width: 0, height: 0 }]
        } else if is_prefix_of("//"@, u) {
            seq![ImageView { src: "https:"@ + u, alt: Seq::empty(), width: 0, height: 0 }]
        } else if is_prefix_of("/"@, u) {
            seq![ImageView { src: resolved(base, u), alt: Seq::empty(), width: 0, height: 0 }]
        } else {
            Seq::empty()
        }
    } else {
        Seq::empty()
    }
}

/// Candidates of a token list, in order.
pub open spec fn script_tokens_cands(toks: Seq<Seq<char>>, base: Seq<char>) -> Seq<ImageView>
    decreases toks.len(),
{
    if toks.len() == 0 {
        Seq::empty()
    } else {
        script_tokens_cands(toks.drop_last(), base) + script_token_cand(toks.last(), base)
    }
}

/// Candidates of an inline script element: its text, if of reasonable size,
/// split on double quotes and then on single quotes, each token scanned.
pub open spec fn script_cands(n: DomNodeView, base: Seq<char>) -> Seq<ImageView> {
    if n.0 != "script"@ {
        Seq::empty()
    } else {
        let tx = concat_texts(n.2);
        if tx.len() < 10 || tx.len() > 500000 {
            Seq::empty()
        } else {
            script_tokens_cands(split_by(tx, seq!['"']), base) + script_tokens_cands(
                split_by(tx, seq!['\'']),
                base,
            )
        }
    }
}

fn push_script_token_cand(out: &mut Vec<ImageInfo>, tok: &str, base: &str)
    ensures
        final(out).deep_view() == old(out).deep_view() + script_token_cand(tok@, base@),
{
    let ghost o = out.deep_view();
    let t1 = trim_str(tok);
    let u = unescape_slashes_exec(t1.as_str());
    let ul = u.as_str().unicode_len();
    if ul > 10 && ul < 2000 {
        let has_ext = contains_ci(u.as_str(), ".jpg") || contains_ci(u.as_str(), ".jpeg")
            || contains_ci(u.as_str(), ".png") || contains_ci(u.as_str(), ".gif") || contains_ci(
            u.as_str(),
            ".webp",
        ) || contains_ci(u.as_str(), ".avif") || contains_ci(u.as_str(), ".svg");
        if has_ext {
            if starts_with_str(u.as_str(), "http") {
                out.push(ImageInfo { src: u, alt: String::new(), width: 0, height: 0 });
            } else if starts_with_str(u.as_str(), "//") {
                let mut full = String::from_str("https:");
                full.append(u.as_str());
                out.push(ImageInfo { src: full, alt: String::new(), width: 0, height: 0 });
            } else if starts_with_str(u.as_str(), "/") {
                let src = resolve_url(base, u.as_str());
                out.push(ImageInfo { src, alt: String::new(), width: 0, height: 0 });
            }
        }
    }
    proof {
        assert(out.deep_view() =~= o + script_token_cand(tok@, base@));
    }
}

fn push_script_tokens(out: &mut Vec<ImageInfo>, toks: &Vec<String>, base: &str)
    ensures
        final(out).deep_view() == old(out).deep_view() + script_tokens_cands(toks.deep_view(), base@),
{
    let ghost o = out.deep_view();
    let ghost tv = toks.deep_view();
    let n = toks.len();
    proof {
        assert(tv.take(0) =~= Seq::<Seq<char>>::empty());
        assert(o + script_tokens_cands(tv.take(0), base@) =~= o);
    }
    let mut i: usize = 0;
    while i < n
        invariant
            n == toks.len(),
            tv == toks.deep_view(),
            i <= n,
            out.deep_view() == o + script_tokens_cands(tv.take(i as int), base@),
        decreases n - i,
    {
        proof {
            assert(tv.take(i + 1).drop_last() =~= tv.take(i as int));
            assert(tv.take(i + 1).last() == tv[i as int]);
            assert(toks@[i as int].deep_view() == tv[i as int]);
        }
        push_script_token_cand(out, toks[i].as_str(), base);
        i = i + 1;
    }
    proof {
        assert(tv.take(n as int) =~= tv);
    }
}

fn push_script_cands(out: &mut Vec<ImageInfo>, e: &DomElement, base: &str)
    ensures
        final(out).deep_view() == old(out).deep_view() + script_cands(e.deep_view(), base@),
{
    let ghost o = out.deep_view();
    if str_eq(e.tag.as_str(), "script") {
        let tx = concat_texts_exec(e);
        let tl = tx.as_str().unicode_len();
        if tl >= 10 && tl <= 500000 {
            let dq = split_char_exec(tx.as_str(), '"');
            push_script_tokens(out, &dq, base);
            let sq = split_char_exec(tx.as_str(), '\'');
            push_script_tokens(out, &sq, base);
            proof {
                assert(out.deep_view() =~= o + script_cands(e.deep_view(), base@));
            }
        } else {
            proof {
                assert(out.deep_view() =~= o + script_cands(e.deep_view(), base@));
            }
        }
    } else {
        proof {
            assert(out.deep_view() =~= o + script_cands(e.deep_view(), base@));
        }
    }
}

/// The candidates one element contributes under strategy `id`, in the fixed
/// priority order 1 to 7.
pub open spec fn strategy_cands(id: u8, n: DomNodeView, base: Seq<char>) -> Seq<ImageView> {
    if id == 1 {
        img_cands(n, base)
    } else if id == 2 {
        source_cands(n, base)
    } else if id == 3 {
        anchor_cands(n, base)
    } else if id == 4 {
        meta_cands(n, base)
    } else if id == 5 {
        video_cands(n, base)
    } else if id == 6 {
        style_cands(n, base)
    } else {
        script_cands(n, base)
    }
}

/// One strategy's candidates over all elements, in document order.
pub open spec fn strategy_pass(id: u8, elems: Seq<DomNodeView>, base: Seq<char>) -> Seq<ImageView>
    decreases elems.len(),
{
    if elems.len() == 0 {
        Seq::empty()
    } else {
        strategy_pass(id, elems.drop_last(), base) + strategy_cands(id, elems.last(), base)
    }
}

/// Every image candidate of the markup, strategies in priority order, each
/// in document order, before deduplication.
pub open spec fn image_candidates(elems: Seq<DomNodeView>, base: Seq<char>) -> Seq<ImageView> {
    strategy_pass(1, elems, base) + strategy_pass(2, elems, base) + strategy_pass(3, elems, base)
        + strategy_pass(4, elems, base) + strategy_pass(5, elems, base) + strategy_pass(
        6,
        elems,
        base,
    ) + strategy_pass(7, elems, base)
}

fn push_strategy_cands(out: &mut Vec<ImageInfo>, e: &DomElement, base: &str, id: u8)
    ensures
        final(out).deep_view() == old(out).deep_view() + strategy_cands(id, e.deep_view(), base@),
{
    if id == 1 {
        push_img_cands(out, e, base);
    } else if id == 2 {
        push_source_cands(out, e, base);
    } else if id == 3 {
        push_anchor_cands(out, e, base);
    } else if id == 4 {
        push_meta_cands(out, e, base);
    } else if id == 5 {
        push_video_cands(out, e, base);
    } else if id == 6 {
        push_style_cands(out, e, base);
    } else {
        push_script_cands(out, e, base);
    }
}

fn run_strategy(out: &mut Vec<ImageInfo>, elems: &Vec<DomElement>, base: &str, id: u8)
    ensures
        final(out).deep_view() == old(out).deep_view() + strategy_pass(id, elems.deep_view(), base@),
{
    let ghost o = out.deep_view();
    let ghost ev = elems.deep_view();
    let n = elems.len();
    proof {
        assert(ev.take(0) =~= Seq::<DomNodeView>::empty());
        assert(o + strategy_pass(id, ev.take(0), base@) =~= o);
    }
    let mut i: usize = 0;
    while i < n
        invariant
            n == elems.len(),
            ev == elems.deep_view(),
            i <= n,
            out.deep_view() == o + strategy_pass(id, ev.take(i as int), base@),
        decreases n - i,
    {
        proof {
            assert(ev.take(i + 1).drop_last() =~= ev.take(i as int));
            assert(ev.take(i + 1).last() == ev[i as int]);
            assert(elems@[i as int].deep_view() == ev[i as int]);
        }
        push_strategy_cands(out, &elems[i], base, id);
        i = i + 1;
    }
    proof {
        assert(ev.take(n as int) =~= ev);
    }
}

/// Collects every image candidate of the markup, in strategy priority order.
fn collect_image_candidates(elems: &Vec<DomElement>, base: &str) -> (r: Vec<ImageInfo>)
    ensures
        r.deep_view() == image_candidates(elems.deep_view(), base@),
{
    let mut out: Vec<ImageInfo> = Vec::new();
    proof {
        assert(out.deep_view() =~= Seq::<ImageView>::empty());
    }
    run_strategy(&mut out, elems, base, 1);
    run_strategy(&mut out, elems, base, 2);
    run_strategy(&mut out, elems, base, 3);
    run_strategy(&mut out, elems, base, 4);
    run_strategy(&mut out, elems, base, 5);
    run_strategy(&mut out, elems, base, 6);
    run_strategy(&mut out, elems, base, 7);
    proof {
        assert(out.deep_view() =~= image_candidates(elems.deep_view(), base@));
    }
    out
}

/// An element's text nodes joined by single spaces.
pub open spec fn join_sp(ts: Seq<Seq<char>>) -> Seq<char>
    decreases ts.len(),
{
    if ts.len() == 0 {
        Seq::empty()
    } else if ts.len() == 1 {
        ts[0]
    } else {
        join_sp(ts.drop_last()) + seq![' '] + ts.last()
    }
}

fn join_sp_exec(e: &DomElement) -> (r: String)
    ensures
        r@ == join_sp(e@.2),
{
    let ghost tv = e@.2;
    let n = e.texts.len();
    let mut out = String::new();
    proof {
        assert(tv.take(0) =~= Seq::<Seq<char>>::empty());
        assert(out@ =~= join_sp(tv.take(0)));
    }
    let mut i: usize = 0;
    while i < n
        invariant
            n == e.texts.len(),
            tv == e@.2,
            n == tv.len(),
            i <= n,
            out@ == join_sp(tv.take(i as int)),
        decreases n - i,
    {
        proof {
            assert(tv.take(i + 1).drop_last() =~= tv.take(i as int));
            assert(tv.take(i + 1).last() == tv[i as int]);
            assert(e.texts@[i as int].deep_view() == tv[i as int]);
            if i >= 1 {
                reveal_strlit(" ");
                assert(" "@ =~= seq![' ']);
            } else {
                assert(tv.take(1)[0] == tv[0]);
            }
        }
        if i > 0 {
            out.append(" ");
        }
        out.append(e.texts[i].as_str());
        i = i + 1;
    }
    proof {
        assert(tv.take(n as int) =~= tv);
    }
    out
}

/// The fragment one element contributes for one tag of the fixed list.
pub open spec fn el_text_cand(n: DomNodeView, tag: Seq<char>, utag: Seq<char>) -> Seq<TextView> {
    if n.0 == tag {
        seq![TextView { tag: utag, text: join_sp(n.2) }]
    } else {
        Seq::empty()
    }
}

/// One tag's fragments over all elements, in document order.
pub open spec fn tag_pass(elems: Seq<DomNodeView>, tag: Seq<char>, utag: Seq<char>) -> Seq<
    TextView,
>
    decreases elems.len(),
{
    if elems.len() == 0 {
        Seq::empty()
    } else {
        tag_pass(elems.drop_last(), tag, utag) + el_text_cand(elems.last(), tag, utag)
    }
}

/// Every text candidate of the markup: heading levels one to six, then
/// paragraphs, list items, block quotes and figure captions, before
/// deduplication.
pub open spec fn text_candidates(elems: Seq<DomNodeView>) -> Seq<TextView> {
    tag_pass(elems, "h1"@, "H1"@) + tag_pass(elems, "h2"@, "H2"@) + tag_pass(elems, "h3"@, "H3"@)
        + tag_pass(elems, "h4"@, "H4"@) + tag_pass(elems, "h5"@, "H5"@) + tag_pass(
        elems,
        "h6"@,
        "H6"@,
    ) + tag_pass(elems, "p"@, "P"@) + tag_pass(elems, "li"@, "LI"@) + tag_pass(
        elems,
        "blockquote"@,
        "BLOCKQUOTE"@,
    ) + tag_pass(elems, "figcaption"@, "FIGCAPTION"@)
}

fn run_tag_pass(out: &mut Vec<TextBlock>, elems: &Vec<DomElement>, tag: &str, utag: &str)
    ensures
        final(out).deep_view() == old(out).deep_view() + tag_pass(elems.deep_view(), tag@, utag@),
{
    let ghost o = out.deep_view();
    let ghost ev = elems.deep_view();
    let n = elems.len();
    proof {
        assert(ev.take(0) =~= Seq::<DomNodeView>::empty());
        assert(o + tag_pass(ev.take(0), tag@, utag@) =~= o);
    }
    let mut i: usize = 0;
    while i < n
        invariant
            n == elems.len(),
            ev == elems.deep_view(),
            i <= n,
            out.deep_view() == o + tag_pass(ev.take(i as int), tag@, utag@),
        decreases n - i,
    {
        proof {
            assert(ev.take(i + 1).drop_last() =~= ev.take(i as int));
            assert(ev.take(i + 1).last() == ev[i as int]);
            assert(elems@[i as int].deep_view() == ev[i as int]);
        }
        let e = &elems[i];
        if str_eq(e.tag.as_str(), tag) {
            let text = join_sp_exec(e);
            let ghost before = out.deep_view();
            out.push(TextBlock { tag: String::from_str(utag), text });
            proof {
                assert(out.deep_view() =~= before + el_text_cand(ev[i as int], tag@, utag@));
            }
        } else {
            proof {
                assert(out.deep_view() =~= o + tag_pass(ev.take(i + 1), tag@, utag@));
            }
        }
        i = i + 1;
    }
    proof {
        assert(ev.take(n as int) =~= ev);
    }
}

/// Collects every text candidate of the markup, tags in the fixed order.
fn collect_text_candidates(elems: &Vec<DomElement>) -> (r: Vec<TextBlock>)
    ensures
        r.deep_view() == text_candidates(elems.deep_view()),
{
    let mut out: Vec<TextBlock> = Vec::new();
    proof {
        assert(out.deep_view() =~= Seq::<TextView>::empty());
    }
    run_tag_pass(&mut out, elems, "h1", "H1");
    run_tag_pass(&mut out, elems, "h2", "H2");
    run_tag_pass(&mut out, elems, "h3", "H3");
    run_tag_pass(&mut out, elems, "h4", "H4");
    run_tag_pass(&mut out, elems, "h5", "H5");
    run_tag_pass(&mut out, elems, "h6", "H6");
    run_tag_pass(&mut out, elems, "p", "P");
    run_tag_pass(&mut out, elems, "li", "LI");
    run_tag_pass(&mut out, elems, "blockquote", "BLOCKQUOTE");
    run_tag_pass(&mut out, elems, "figcaption", "FIGCAPTION");
    proof {
        assert(out.deep_view() =~= text_candidates(elems.deep_view()));
    }
    out
}

/// The extractor's image output: candidates deduplicated by normalized key
/// (first occurrence kept), data URIs dropped, capped.
pub open spec fn extracted_images(elems: Seq<DomNodeView>, base: Seq<char>) -> Seq<ImageView> {
    cap_seq(dedup_images(image_candidates(elems, base)))
}

/// The extractor's text output: candidates with collapsed text, fragments
/// shorter than three characters dropped, deduplicated by exact text (first
/// occurrence kept), capped.
pub open spec fn extracted_text(elems: Seq<DomNodeView>) -> Seq<TextView> {
    cap_seq(dedup_text(text_candidates(elems)))
}

/// Runs the full extraction over an element model.
pub fn extract_from_elements(elems: &Vec<DomElement>, base: &str) -> (r: (
    Vec<ImageInfo>,
    Vec<TextBlock>,
))
    ensures
        r.0.deep_view() == extracted_images(elems.deep_view(), base@),
        r.1.deep_view() == extracted_text(elems.deep_view()),
{
    let ic = collect_image_candidates(elems, base);
    let images = dedup_images_exec(&ic);
    let tc = collect_text_candidates(elems);
    let texts = dedup_text_exec(&tc);
    (images, texts)
}

/// Parses raw markup and runs the full extraction: the raw-markup pass's
/// whole compute step, from fetched text to asset lists.
pub fn extract_markup_assets(markup: &str, base: &str) -> (r: (Vec<ImageInfo>, Vec<TextBlock>))
    ensures
        r.0.deep_view() == extracted_images(dom_of(markup@), base@),
        r.1.deep_view() == extracted_text(dom_of(markup@)),
{
    let elems = parse_markup(markup);
    extract_from_elements(&elems, base)
}

} // verus!
