//! The data model: page metadata, image assets, text fragments, the per-pass
//! bundle delivered by the rendering pass, and the combined caller-facing
//! result, each with a spec-level view.

use vstd::prelude::*;
use vstd::string::*;

verus! {

/// Page metadata, produced once per invocation by the rendering pass.
pub struct PageMetadata {
    pub title: String,
    pub description: String,
    pub favicon: String,
}

/// Spec view of `PageMetadata`.
pub struct MetadataView {
    pub title: Seq<char>,
    pub description: Seq<char>,
    pub favicon: Seq<char>,
}

impl View for PageMetadata {
    type V = MetadataView;

    open spec fn view(&self) -> MetadataView {
        MetadataView {
            title: self.title@,
            description: self.description@,
            favicon: self.favicon@,
        }
    }
}

impl DeepView for PageMetadata {
    type V = MetadataView;

    open spec fn deep_view(&self) -> MetadataView {
        self.view()
    }
}

/// One discovered image asset. `width`/`height` are 0 where unknown.
pub struct ImageInfo {
    pub src: String,
    pub alt: String,
    pub width: u32,
    pub height: u32,
}

/// Spec view of `ImageInfo`.
pub struct ImageView {
    pub src: Seq<char>,
    pub alt: Seq<char>,
    pub width: u32,
    pub height: u32,
}

impl View for ImageInfo {
    type V = ImageView;

    open spec fn view(&self) -> ImageView {
        ImageView { src: self.src@, alt: self.alt@, width: self.width, height: self.height }
    }
}

impl DeepView for ImageInfo {
    type V = ImageView;

    open spec fn deep_view(&self) -> ImageView {
        self.view()
    }
}

/// One extracted text fragment, tagged with the element it came from.
pub struct TextBlock {
    pub tag: String,
    pub text: String,
}

/// Spec view of `TextBlock`.
pub struct TextView {
    pub tag: Seq<char>,
    pub text: Seq<char>,
}

impl View for TextBlock {
    type V = TextView;

    open spec fn view(&self) -> TextView {
        TextView { tag: self.tag@, text: self.text@ }
    }
}

impl DeepView for TextBlock {
    type V = TextView;

    open spec fn deep_view(&self) -> TextView {
        self.view()
    }
}

/// What the rendering pass delivers: colors, fonts and metadata always;
/// images and text optionally (treated as present but possibly empty).
pub struct BrowserAnalysis {
    pub colors: Vec<String>,
    pub fonts: Vec<String>,
    pub images: Vec<ImageInfo>,
    pub text_content: Vec<TextBlock>,
    pub metadata: PageMetadata,
}

/// Spec view of `BrowserAnalysis`.
pub struct BrowserAnalysisView {
    pub colors: Seq<Seq<char>>,
    pub fonts: Seq<Seq<char>>,
    pub images: Seq<ImageView>,
    pub text_content: Seq<TextView>,
    pub metadata: MetadataView,
}

impl View for BrowserAnalysis {
    type V = BrowserAnalysisView;

    open spec fn view(&self) -> BrowserAnalysisView {
        BrowserAnalysisView {
            colors: self.colors.deep_view(),
            fonts: self.fonts.deep_view(),
            images: self.images.deep_view(),
            text_content: self.text_content.deep_view(),
            metadata: self.metadata@,
        }
    }
}

/// The combined result returned to the caller: colors, fonts and metadata
/// from the rendering pass; images and text merged from both passes.
pub struct AnalysisResult {
    pub colors: Vec<String>,
    pub fonts: Vec<String>,
    pub images: Vec<ImageInfo>,
    pub text_content: Vec<TextBlock>,
    pub metadata: PageMetadata,
}

/// Spec view of `AnalysisResult`.
pub struct AnalysisResultView {
    pub colors: Seq<Seq<char>>,
    pub fonts: Seq<Seq<char>>,
    pub images: Seq<ImageView>,
    pub text_content: Seq<TextView>,
    pub metadata: MetadataView,
}

impl View for AnalysisResult {
    type V = AnalysisResultView;

    open spec fn view(&self) -> AnalysisResultView {
        AnalysisResultView {
            colors: self.colors.deep_view(),
            fonts: self.fonts.deep_view(),
            images: self.images.deep_view(),
            text_content: self.text_content.deep_view(),
            metadata: self.metadata@,
        }
    }
}

/// A field-for-field copy of an image asset.
pub fn clone_image(i: &ImageInfo) -> (r: ImageInfo)
    ensures
        r == *i,
{
    ImageInfo {
        src: i.src.clone(),
        alt: i.alt.clone(),
        width: i.width,
        height: i.height,
    }
}

/// A field-for-field copy of a text fragment.
pub fn clone_text(t: &TextBlock) -> (r: TextBlock)
    ensures
        r == *t,
{
    TextBlock { tag: t.tag.clone(), text: t.text.clone() }
}

} // verus!
