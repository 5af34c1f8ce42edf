use brandsnap::mailbox::{Delivery, Mailbox};
use brandsnap::model::{BrowserAnalysis, ImageInfo, PageMetadata, TextBlock};
use brandsnap::orchestrate::{orchestrate, AnalysisError, RawOutcome, RenderingOutcome};
use brandsnap::resolve::{download_filename, is_valid_url};

fn browser(colors: &[&str], fonts: &[&str], title: &str) -> BrowserAnalysis {
    BrowserAnalysis {
        colors: colors.iter().map(|c| c.to_string()).collect(),
        fonts: fonts.iter().map(|f| f.to_string()).collect(),
        images: Vec::new(),
        text_content: Vec::new(),
        metadata: PageMetadata {
            title: title.to_string(),
            description: String::new(),
            favicon: String::new(),
        },
    }
}

#[test]
fn end_to_end_combination() {
    let raw_images = vec![ImageInfo {
        src: "http://x/a.jpg".to_string(),
        alt: String::new(),
        width: 0,
        height: 0,
    }];
    let raw_text = vec![TextBlock { tag: "P".to_string(), text: "Hello world".to_string() }];
    let r = orchestrate(
        true,
        Ok(()),
        RenderingOutcome::Delivered(browser(&["#fff"], &["Arial"], "T")),
        RawOutcome::Extracted(raw_images, raw_text),
    );
    let res = match r {
        Ok(res) => res,
        Err(_) => panic!("expected success"),
    };
    assert_eq!(res.colors, vec!["#fff"]);
    assert_eq!(res.fonts, vec!["Arial"]);
    assert_eq!(res.metadata.title, "T");
    assert_eq!(res.images.len(), 1);
    assert_eq!(res.images[0].src, "http://x/a.jpg");
    assert_eq!(res.text_content.len(), 1);
    assert_eq!(res.text_content[0].tag, "P");
    assert_eq!(res.text_content[0].text, "Hello world");
}

#[test]
fn rendering_timeout_discards_raw_result() {
    // the raw task finished with data, but the analysis already failed: the
    // data is discarded and the error reported
    let raw_images = vec![ImageInfo {
        src: "http://x/a.jpg".to_string(),
        alt: String::new(),
        width: 0,
        height: 0,
    }];
    let r = orchestrate(
        true,
        Ok(()),
        RenderingOutcome::TimedOut,
        RawOutcome::Extracted(raw_images, Vec::new()),
    );
    assert!(matches!(r, Err(AnalysisError::RenderingTimeout)));
}

#[test]
fn raw_failure_is_not_fatal() {
    let r = orchestrate(
        true,
        Ok(()),
        RenderingOutcome::Delivered(browser(&["#fff"], &["Arial"], "T")),
        RawOutcome::Failed,
    );
    let res = match r {
        Ok(res) => res,
        Err(_) => panic!("expected success"),
    };
    assert_eq!(res.colors, vec!["#fff"]);
    assert_eq!(res.fonts, vec!["Arial"]);
    assert_eq!(res.metadata.title, "T");
    assert!(res.images.is_empty());
    assert!(res.text_content.is_empty());
}

#[test]
fn invalid_url_fails_immediately() {
    let r = orchestrate(false, Ok(()), RenderingOutcome::TimedOut, RawOutcome::Failed);
    assert!(matches!(r, Err(AnalysisError::InvalidInput)));
}

#[test]
fn surface_failure_is_fatal() {
    let r = orchestrate(
        true,
        Err("boom".to_string()),
        RenderingOutcome::TimedOut,
        RawOutcome::Failed,
    );
    match r {
        Err(AnalysisError::SurfaceUnavailable(m)) => assert_eq!(m, "boom"),
        _ => panic!("expected a surface failure"),
    }
}

#[test]
fn explicit_rendering_failure_is_fatal() {
    let r = orchestrate(
        true,
        Ok(()),
        RenderingOutcome::DeliveredFailure("script died".to_string()),
        RawOutcome::Failed,
    );
    match r {
        Err(AnalysisError::RenderingFailure(m)) => assert_eq!(m, "script died"),
        _ => panic!("expected a rendering failure"),
    }
}

#[test]
fn channel_closed_is_fatal() {
    let r = orchestrate(true, Ok(()), RenderingOutcome::ChannelClosed, RawOutcome::Failed);
    assert!(matches!(r, Err(AnalysisError::RenderingChannelClosed)));
}

#[test]
fn late_callback_finds_no_pending_request() {
    let mut mb = Mailbox::new();
    let t1 = mb.arm();
    // a second analysis starts: the first slot is replaced
    let t2 = mb.arm();
    assert_ne!(t1, t2);
    // the first invocation's late callback is rejected
    assert!(!mb.fulfill(t1, Delivery::Failure("late".to_string())));
    // the second invocation is unaffected
    assert!(mb.fulfill(t2, Delivery::Success(browser(&["#000"], &[], "S"))));
    match mb.take_delivery(t2) {
        Some(Delivery::Success(b)) => assert_eq!(b.metadata.title, "S"),
        _ => panic!("expected the second delivery"),
    }
    // the slot is single-use
    assert!(mb.take_delivery(t2).is_none());
    assert!(!mb.fulfill(t2, Delivery::Failure("again".to_string())));
}

#[test]
fn take_with_wrong_ticket_leaves_slot() {
    let mut mb = Mailbox::new();
    let t = mb.arm();
    assert!(mb.fulfill(t, Delivery::Failure("no colors".to_string())));
    assert!(mb.take_delivery(t + 1).is_none());
    match mb.take_delivery(t) {
        Some(Delivery::Failure(m)) => assert_eq!(m, "no colors"),
        _ => panic!("expected the stored failure"),
    }
}

#[test]
fn download_file_names() {
    assert_eq!(download_filename("https://example.com/images/pic.png?x=1"), "pic.png");
    assert_eq!(download_filename("https://example.com/"), "image.png");
    assert_eq!(download_filename("not a url"), "image.png");
}

#[test]
fn url_validation() {
    assert!(is_valid_url("https://example.com/page"));
    assert!(!is_valid_url("not a url"));
    assert!(!is_valid_url("/relative/only"));
}
