//! URL resolution against a base, URL validation, and the file name chosen
//! for a downloaded asset. The URL grammar is the url crate's work, behind
//! trusted wrappers whose results are pure functions of their string
//! arguments.

use vstd::prelude::*;
use vstd::string::*;

verus! {

/// What the url library resolves `reference` to against `base`: the joined
/// absolute URL, or `reference` unchanged where parsing or joining fails.
pub uninterp spec fn resolved(base: Seq<char>, reference: Seq<char>) -> Seq<char>;

/// Relies on url's `Url::parse` and `Url::join`: joins a possibly relative
/// reference against a base URL, degrading to the reference unchanged where
/// parsing fails. The result is a pure function of the two strings.
#[verifier::external_body]
pub fn resolve_url(base: &str, reference: &str) -> (r: String)
    ensures
        r@ == resolved(base@, reference@),
{
    match url::Url::parse(base) {
        Ok(b) => match b.join(reference) {
            Ok(u) => u.to_string(),
            Err(_) => reference.to_string(),
        },
        Err(_) => reference.to_string(),
    }
}

/// Whether the url library accepts `s` as an absolute URL.
pub uninterp spec fn url_parses(s: Seq<char>) -> bool;

/// Relies on url's `Url::parse`: whether `s` parses as an absolute URL; a
/// pure function of the string.
#[verifier::external_body]
pub fn is_valid_url(s: &str) -> (r: bool)
    ensures
        r == url_parses(s@),
{
    url::Url::parse(s).is_ok()
}

/// The last path segment the url library reports for `s`: `None` where `s`
/// does not parse or cannot be a base.
pub uninterp spec fn last_segment_of(s: Seq<char>) -> Option<Seq<char>>;

/// Relies on url's `Url::parse` and `Url::path_segments`: the final path
/// segment of the URL (possibly empty), or `None` where the URL does not
/// parse or has no segments; a pure function of the string.
#[verifier::external_body]
pub fn last_path_segment(s: &str) -> (r: Option<String>)
    ensures
        r.deep_view() == last_segment_of(s@),
{
    match url::Url::parse(s) {
        Ok(u) => u.path_segments().and_then(|segs| segs.last()).map(|x| x.to_string()),
        Err(_) => None,
    }
}

/// The file name under which a fetched asset is saved: the URL's last path
/// segment where present and non-empty, else a default name.
pub fn download_filename(url: &str) -> (r: String)
    ensures
        last_segment_of(url@) is None ==> r@ == "image.png"@,
        last_segment_of(url@) matches Some(seg) ==> if seg.len() > 0 {
            r@ == seg
        } else {
            r@ == "image.png"@
        },
{
    match last_path_segment(url) {
        Some(seg) => {
            if seg.as_str().unicode_len() > 0 {
                seg
            } else {
                String::from_str("image.png")
            }
        },
        None => String::from_str("image.png"),
    }
}

} // verus!
