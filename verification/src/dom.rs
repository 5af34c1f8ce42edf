//! A plain model of parsed markup: each element as its lower-case tag name,
//! its attributes in source order, and its text nodes in document order. The
//! HTML parsing itself is the parser crate's work, behind one trusted
//! wrapper; everything that reads the model is verified.

use vstd::prelude::*;

verus! {

/// One element of the parsed markup, in document order.
pub struct DomElement {
    /// Lower-case tag name.
    pub tag: String,
    /// Attributes as (name, value), in source order, first duplicate kept.
    pub attrs: Vec<(String, String)>,
    /// The text of the element's descendant text nodes, in document order.
    pub texts: Vec<String>,
}

/// Spec view of an element: (tag, attributes, text nodes).
pub type DomNodeView = (Seq<char>, Seq<(Seq<char>, Seq<char>)>, Seq<Seq<char>>);

impl View for DomElement {
    type V = DomNodeView;

    open spec fn view(&self) -> DomNodeView {
        (self.tag@, self.attrs.deep_view(), self.texts.deep_view())
    }
}

impl DeepView for DomElement {
    type V = DomNodeView;

    open spec fn deep_view(&self) -> DomNodeView {
        self.view()
    }
}

/// The elements of `markup` as the HTML parser reads them, in document
/// order: a pure function of the markup text.
pub uninterp spec fn dom_of(markup: Seq<char>) -> Seq<DomNodeView>;

/// Relies on scraper's `Html::parse_document` (and its element iteration):
/// the element tree of the markup, flattened to (tag, attributes, text
/// nodes) in document order. Parsing is a pure function of the markup text.
#[verifier::external_body]
pub fn parse_markup(markup: &str) -> (r: Vec<DomElement>)
    ensures
        r.deep_view() == dom_of(markup@),
{
    let doc = scraper::Html::parse_document(markup);
    doc.root_element().descendants().filter_map(scraper::ElementRef::wrap).map(
        |el| DomElement {
            tag: el.value().name().to_string(),
            attrs: el.value().attrs().map(|(k, v)| (k.to_string(), v.to_string())).collect(),
            texts: el.text().map(|t| t.to_string()).collect(),
        },
    ).collect()
}

} // verus!
