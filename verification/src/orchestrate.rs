//! The dual-pass orchestrator's decision logic: a per-invocation state
//! machine from `Starting` through `AwaitingBoth` and `Reconciling` to `Done`
//! (or `Failed`). A failed rendering pass is fatal — colors, fonts and
//! metadata have no other source — while a failed raw-markup pass only
//! degrades the result to empty image/text contributions from that pass.

use vstd::prelude::*;

use crate::merge::{merge_images, merge_text, merged_images, merged_text};
use crate::model::{AnalysisResult, BrowserAnalysis, ImageInfo, TextBlock};

verus! {

/// Why an analysis failed. Raw-markup failures are never fatal and so never
/// appear here.
pub enum AnalysisError {
    /// The target URL does not parse as an absolute URL.
    InvalidInput,
    /// The rendering surface could not be created.
    SurfaceUnavailable(String),
    /// The rendering pass never called back within its timeout.
    RenderingTimeout,
    /// The result channel was closed before any delivery.
    RenderingChannelClosed,
    /// The rendering pass reported an explicit failure.
    RenderingFailure(String),
}

/// How the wait on the rendering-pass result channel resolved.
pub enum RenderingOutcome {
    Delivered(BrowserAnalysis),
    DeliveredFailure(String),
    ChannelClosed,
    TimedOut,
}

/// How the raw-markup fetch-and-extract task ended.
pub enum RawOutcome {
    Extracted(Vec<ImageInfo>, Vec<TextBlock>),
    Failed,
}

/// The per-invocation state machine.
pub enum Analysis {
    Starting,
    AwaitingBoth,
    Reconciling(BrowserAnalysis),
    Done(AnalysisResult),
    Failed(AnalysisError),
}

impl Analysis {
    /// Begins an invocation: an invalid target URL fails immediately.
    pub fn begin(url_valid: bool) -> (a: Analysis)
        ensures
            url_valid ==> a is Starting,
            !url_valid ==> a == Analysis::Failed(AnalysisError::InvalidInput),
    {
        if url_valid {
            Analysis::Starting
        } else {
            Analysis::Failed(AnalysisError::InvalidInput)
        }
    }

    /// The rendering surface was prepared; both passes are now awaited.
    pub fn surface_ready(self) -> (a: Analysis)
        requires
            self is Starting,
        ensures
            a is AwaitingBoth,
    {
        Analysis::AwaitingBoth
    }

    /// The rendering surface could not be created: fatal.
    pub fn surface_failed(self, reason: String) -> (a: Analysis)
        requires
            self is Starting,
        ensures
            a == Analysis::Failed(AnalysisError::SurfaceUnavailable(reason)),
    {
        Analysis::Failed(AnalysisError::SurfaceUnavailable(reason))
    }

    /// The wait on the result channel resolved. Anything but a delivered
    /// success is fatal to the analysis.
    pub fn rendering_resolved(self, outcome: RenderingOutcome) -> (a: Analysis)
        requires
            self is AwaitingBoth,
        ensures
            match outcome {
                RenderingOutcome::Delivered(b) => a == Analysis::Reconciling(b),
                RenderingOutcome::DeliveredFailure(m) => a == Analysis::Failed(
                    AnalysisError::RenderingFailure(m),
                ),
                RenderingOutcome::ChannelClosed => a == Analysis::Failed(
                    AnalysisError::RenderingChannelClosed,
                ),
                RenderingOutcome::TimedOut => a == Analysis::Failed(
                    AnalysisError::RenderingTimeout,
                ),
            },
    {
        match outcome {
            RenderingOutcome::Delivered(b) => Analysis::Reconciling(b),
            RenderingOutcome::DeliveredFailure(m) => Analysis::Failed(
                AnalysisError::RenderingFailure(m),
            ),
            RenderingOutcome::ChannelClosed => Analysis::Failed(
                AnalysisError::RenderingChannelClosed,
            ),
            RenderingOutcome::TimedOut => Analysis::Failed(AnalysisError::RenderingTimeout),
        }
    }

    /// The raw-markup task ended. In a failed analysis its outcome is
    /// discarded outright — never merged into an error response. Otherwise a
    /// successful extraction is merged with rendering-pass priority, and a
    /// failed one contributes empty lists: both passes' colors, fonts and
    /// metadata come from the rendering pass alone.
    pub fn raw_resolved(self, raw: RawOutcome) -> (a: Analysis)
        requires
            self is Reconciling || self is Failed,
        ensures
            self is Failed ==> a == self,
            self matches Analysis::Reconciling(b) ==> (raw matches RawOutcome::Extracted(
                imgs,
                texts,
            ) ==> (a matches Analysis::Done(r) && r@.colors == b@.colors && r@.fonts == b@.fonts
                && r@.metadata == b@.metadata && r@.images == merged_images(
                b@.images,
                imgs.deep_view(),
            ) && r@.text_content == merged_text(b@.text_content, texts.deep_view()))),
            self matches Analysis::Reconciling(b) ==> (raw is Failed ==> (
            a matches Analysis::Done(r) && r@.colors == b@.colors && r@.fonts == b@.fonts
                && r@.metadata == b@.metadata && r@.images == merged_images(
                b@.images,
                Seq::empty(),
            ) && r@.text_content == merged_text(b@.text_content, Seq::empty()))),
    {
        match self {
            Analysis::Reconciling(b) => {
                match raw {
                    RawOutcome::Extracted(imgs, texts) => {
                        let images = merge_images(&b.images, &imgs);
                        let text_content = merge_text(&b.text_content, &texts);
                        Analysis::Done(
                            AnalysisResult {
                                colors: b.colors,
                                fonts: b.fonts,
                                images,
                                text_content,
                                metadata: b.metadata,
                            },
                        )
                    },
                    RawOutcome::Failed => {
                        let empty_imgs: Vec<ImageInfo> = Vec::new();
                        let empty_texts: Vec<TextBlock> = Vec::new();
                        let images = merge_images(&b.images, &empty_imgs);
                        let text_content = merge_text(&b.text_content, &empty_texts);
                        proof {
                            assert(empty_imgs.deep_view() =~= Seq::<crate::model::ImageView>::empty());
                            assert(empty_texts.deep_view() =~= Seq::<crate::model::TextView>::empty());
                        }
                        Analysis::Done(
                            AnalysisResult {
                                colors: b.colors,
                                fonts: b.fonts,
                                images,
                                text_content,
                                metadata: b.metadata,
                            },
                        )
                    },
                }
            },
            _ => self,
        }
    }

    /// The outcome of a finished invocation.
    pub fn outcome(self) -> (r: Result<AnalysisResult, AnalysisError>)
        requires
            self is Done || self is Failed,
        ensures
            self matches Analysis::Done(res) ==> r == Result::<AnalysisResult, AnalysisError>::Ok(
                res,
            ),
            self matches Analysis::Failed(e) ==> r == Result::<AnalysisResult, AnalysisError>::Err(
                e,
            ),
    {
        match self {
            Analysis::Done(res) => Ok(res),
            Analysis::Failed(e) => Err(e),
            _ => Err(AnalysisError::InvalidInput),
        }
    }
}

/// The whole decision table of one invocation, as a pure function of what
/// the outside world reported: URL validity, surface creation, the rendering
/// wait's resolution, and the raw-markup task's end. An invalid URL or any
/// rendering-side failure is fatal; the raw outcome is merged only after a
/// delivered rendering success, and is discarded — never merged into an
/// error — otherwise.
pub fn orchestrate(
    url_valid: bool,
    surface: Result<(), String>,
    rendering: RenderingOutcome,
    raw: RawOutcome,
) -> (r: Result<AnalysisResult, AnalysisError>)
    ensures
        !url_valid ==> r == Result::<AnalysisResult, AnalysisError>::Err(
            AnalysisError::InvalidInput,
        ),
        url_valid ==> (surface matches Err(m) ==> r == Result::<
            AnalysisResult,
            AnalysisError,
        >::Err(AnalysisError::SurfaceUnavailable(m))),
        (url_valid && surface is Ok && rendering is TimedOut) ==> r == Result::<
            AnalysisResult,
            AnalysisError,
        >::Err(AnalysisError::RenderingTimeout),
        (url_valid && surface is Ok && rendering is ChannelClosed) ==> r == Result::<
            AnalysisResult,
            AnalysisError,
        >::Err(AnalysisError::RenderingChannelClosed),
        (url_valid && surface is Ok) ==> (rendering matches RenderingOutcome::DeliveredFailure(
            m,
        ) ==> r == Result::<AnalysisResult, AnalysisError>::Err(
            AnalysisError::RenderingFailure(m),
        )),
        (url_valid && surface is Ok) ==> (rendering matches RenderingOutcome::Delivered(b) ==> (
        raw matches RawOutcome::Extracted(imgs, texts) ==> (r matches Ok(res) && res@.colors
            == b@.colors && res@.fonts == b@.fonts && res@.metadata == b@.metadata && res@.images
            == merged_images(b@.images, imgs.deep_view()) && res@.text_content == merged_text(
            b@.text_content,
            texts.deep_view(),
        )))),
        (url_valid && surface is Ok) ==> (rendering matches RenderingOutcome::Delivered(b) ==> (
        raw is Failed ==> (r matches Ok(res) && res@.colors == b@.colors && res@.fonts == b@.fonts
            && res@.metadata == b@.metadata && res@.images == merged_images(
            b@.images,
            Seq::empty(),
        ) && res@.text_content == merged_text(b@.text_content, Seq::empty())))),
{
    let a = Analysis::begin(url_valid);
    if !url_valid {
        return a.outcome();
    }
    let a = match surface {
        Ok(_) => a.surface_ready(),
        Err(m) => {
            return a.surface_failed(m).outcome();
        },
    };
    let a = a.rendering_resolved(rendering);
    let a = a.raw_resolved(raw);
    a.outcome()
}

} // verus!
