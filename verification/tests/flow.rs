use liteparse::config::{LiteParseConfig, PageOrientationCorrection};
use liteparse::flow::{
    ineligible_reason, metadata_from_given, parse_step, screenshot_step, OfficeKind, ParseAction,
    ParseContext, ParseEvent, ParseState, ShotAction, ShotEvent, ShotState,
};
use liteparse::parser::{LiteParseError, OcrChoice};
use liteparse::raster::RasterPage;
use liteparse::screenshots::{is_solid_fill, page_words, rasterize_native_pages, Painter};
use liteparse::types::ScreenshotRect;
use liteparse::units::Pt;

fn context() -> ParseContext {
    ParseContext {
        checked: Ok(()),
        targets: Ok(Some(vec![1])),
        engine: Ok(OcrChoice::BuiltIn { tessdata_path: None }),
        prefers_grayscale: true,
    }
}

#[test]
fn a_pdf_goes_through_all_formats_to_the_conversion() {
    let c = LiteParseConfig {
        extract_document_metadata: true,
        extract_screenshots: true,
        continue_on_page_error: true,
        page_orientation_corrections: vec![PageOrientationCorrection { page: 1, angle: 90 }],
        ..Default::default()
    };
    let (s, a) = parse_step(&c, context(), ParseState::Start, ParseEvent::Begin);
    assert!(matches!(a, ParseAction::Probe(OfficeKind::Docx)));
    let (s, a) = parse_step(&c, context(), s, ParseEvent::Probed(false));
    assert!(matches!(a, ParseAction::Probe(OfficeKind::Pptx)));
    let (s, a) = parse_step(&c, context(), s, ParseEvent::Probed(false));
    assert!(matches!(a, ParseAction::Probe(OfficeKind::Xlsx)));
    let (s, a) = parse_step(&c, context(), s, ParseEvent::Probed(false));
    assert!(matches!(a, ParseAction::Resolve(_)));
    let (s, a) = parse_step(&c, context(), s, ParseEvent::Resolved(false));
    match a {
        ParseAction::Extract(plan) => {
            assert_eq!((plan.target_pages, plan.max_pages), (Some(vec![1]), 1000));
            assert!(plan.doc_meta && !plan.form_fields);
            assert_eq!(plan.corrections, vec![PageOrientationCorrection { page: 1, angle: 90 }]);
            let shots = plan.screenshots.unwrap();
            assert!(shots.continue_on_page_error && !shots.detect_rects);
            assert_eq!(shots.dpi, 150_000_000_000_000);
            let pictures = plan.ocr_render.unwrap();
            assert_eq!(pictures.dpi, 150_000_000_000_000);
            assert!(pictures.grayscale && !pictures.form_fields);
        }
        _ => panic!("a PDF is taken apart"),
    }
    let (s, a) = parse_step(&c, context(), s, ParseEvent::Extracted);
    match a {
        ParseAction::Recognise(plan) => {
            assert_eq!((plan.language.as_str(), plan.workers, plan.failure_fatal), ("eng", 4, false));
        }
        other => panic!("{other:?}"),
    }
    let (s, a) = parse_step(&c, context(), s, ParseEvent::Recognised);
    assert!(matches!(a, ParseAction::Assemble));
    assert_eq!(s, ParseState::Ended);
}

#[test]
fn an_option_that_cannot_be_honoured_is_an_error() {
    let c = LiteParseConfig { extract_annotations: true, ..Default::default() };
    assert_eq!(ineligible_reason(&c, OfficeKind::Docx), None);
    assert_eq!(ineligible_reason(&c, OfficeKind::Pptx), Some("extract_annotations"));
    let (s, a) = parse_step(
        &c,
        context(),
        ParseState::Probing(OfficeKind::Pptx),
        ParseEvent::Probed(true),
    );
    assert_eq!(s, ParseState::Ended);
    match a {
        ParseAction::Fail(e) => assert_eq!(
            e.message(),
            "invalid config: `extract_annotations` is not supported by the native PPTX path; \
             disable it, or set office_native = false \
             (CLI: --no-office-native) to parse via the conversion path"
        ),
        _ => panic!("no engine is swapped silently"),
    }
}

#[test]
fn an_engine_that_gives_up_makes_way() {
    let c = LiteParseConfig::default();
    let (s, a) = parse_step(
        &c,
        context(),
        ParseState::Probing(OfficeKind::Xlsx),
        ParseEvent::Probed(true),
    );
    assert!(matches!(a, ParseAction::ParseNative(OfficeKind::Xlsx)));
    let (s, a) = parse_step(&c, context(), s, ParseEvent::NativeGaveUp);
    assert!(matches!(a, ParseAction::Resolve(_)));
    // A converted document has no origin to report.
    let meta = LiteParseConfig { extract_document_metadata: true, ..Default::default() };
    let (_, a) = parse_step(&meta, context(), s, ParseEvent::Resolved(true));
    assert!(matches!(a, ParseAction::Extract(plan) if !plan.doc_meta));
    let (s, a) = parse_step(
        &c,
        context(),
        ParseState::Native(OfficeKind::Docx),
        ParseEvent::NativeDone,
    );
    assert_eq!(s, ParseState::Ended);
    assert!(matches!(a, ParseAction::ReturnNative));
}

#[test]
fn a_parse_fails_in_the_order_of_its_steps() {
    let c = LiteParseConfig { office_native: false, ..Default::default() };
    let fault = |s: &str| LiteParseError::Other(s.into());
    let broken = || ParseContext {
        checked: Err(fault("options")),
        targets: Err(fault("pages")),
        engine: Err(fault("engine")),
        prefers_grayscale: false,
    };
    let (_, a) = parse_step(&c, broken(), ParseState::Start, ParseEvent::Begin);
    assert!(matches!(a, ParseAction::Fail(e) if e.message() == "options"));
    let (s, a) = parse_step(&c, context(), ParseState::Start, ParseEvent::Begin);
    assert!(matches!(a, ParseAction::Resolve(_)));
    let (_, a) = parse_step(&c, broken(), s, ParseEvent::Resolved(false));
    assert!(matches!(a, ParseAction::Fail(e) if e.message() == "pages"));
    let engine = ParseContext { engine: Err(fault("engine")), ..context() };
    let (_, a) = parse_step(&c, engine, s, ParseEvent::Resolved(false));
    assert!(matches!(a, ParseAction::Fail(e) if e.message() == "engine"));
    let (_, a) = parse_step(&c, context(), s, ParseEvent::Failed(fault("io")));
    assert!(matches!(a, ParseAction::Fail(e) if e.message() == "io"));
    let (s, a) = parse_step(&c, context(), ParseState::Ended, ParseEvent::Begin);
    assert_eq!(s, ParseState::Ended);
    assert!(matches!(a, ParseAction::Ignore));
}

#[test]
fn screenshots_fall_back_only_from_engines() {
    let native = LiteParseConfig::default();
    let plain = LiteParseConfig {
        office_native: false,
        dpi: 72_000_000_000_000,
        password: Some("p".into()),
        render_form_fields: true,
        page_orientation_corrections: vec![PageOrientationCorrection { page: 2, angle: 180 }],
        ..Default::default()
    };
    let (s, a) = screenshot_step(&native, ShotState::Start, ShotEvent::Begin);
    assert!(matches!(a, ShotAction::Probe(OfficeKind::Docx)));
    let (s, a) = screenshot_step(&native, s, ShotEvent::Probed(true));
    assert!(matches!(a, ShotAction::Draw(OfficeKind::Docx)));
    let (_, a) = screenshot_step(
        &native,
        s,
        ShotEvent::Failed(LiteParseError::Conversion("engine".into())),
    );
    assert!(matches!(a, ShotAction::Probe(OfficeKind::Pptx)));
    let (end, a) = screenshot_step(&native, s, ShotEvent::Failed(LiteParseError::Other("page".into())));
    assert_eq!(end, ShotState::Ended);
    assert!(matches!(a, ShotAction::Fail(_)));
    let (s, a) = screenshot_step(&plain, ShotState::Start, ShotEvent::Begin);
    match a {
        ShotAction::Render(plan) => {
            assert_eq!((plan.dpi, plan.password.as_deref()), (72_000_000_000_000, Some("p")));
            assert!(plan.form_fields && !plan.detect_rects);
            assert_eq!(plan.corrections, vec![PageOrientationCorrection { page: 2, angle: 180 }]);
        }
        other => panic!("{other:?}"),
    }
    let (_, a) = screenshot_step(&plain, s, ShotEvent::Drawn);
    assert!(matches!(a, ShotAction::Return));
}

#[test]
fn facts_come_from_the_document_that_was_given() {
    assert!(metadata_from_given(true, true));
    assert!(!metadata_from_given(true, false));
    assert!(!metadata_from_given(false, true));
}

fn raster(color: [u8; 4], other: [u8; 4]) -> RasterPage {
    RasterPage {
        rgba: [color, other].concat(),
        width: 2,
        height: 1,
        page_width: Pt::new(2),
        page_height: Pt::new(1),
        scale: 72_000_000_000_000,
    }
}

#[test]
fn a_picture_of_one_colour_is_solid() {
    assert!(is_solid_fill(&vec![1, 2, 3, 4, 1, 2, 3, 4]));
    assert!(!is_solid_fill(&vec![1, 2, 3, 4, 1, 2, 9, 4]));
    assert!(is_solid_fill(&vec![]));
}

#[test]
fn pages_are_drawn_up_to_the_first_that_is_not_there() {
    let white = [255, 255, 255, 255];
    let painter = Painter {
        draw: |i: usize, dpi: u64| -> Result<RasterPage, String> {
            assert_eq!(dpi, 96_000_000_000_000, "pages are drawn at the scale asked for");
            match i {
                0 => Ok(raster([255; 4], [255; 4])),
                1 => Ok(raster([255; 4], [0, 0, 0, 255])),
                _ => Err("no surface".into()),
            }
        },
        find: |p: &RasterPage| -> Vec<ScreenshotRect> {
            vec![ScreenshotRect {
                rect: liteparse::geometry::Rect {
                    x: Pt::zero(),
                    y: Pt::zero(),
                    width: p.page_width,
                    height: p.page_height,
                },
                color: 0,
            }]
        },
        encode: |p: &RasterPage| -> Result<Vec<u8>, LiteParseError> { Ok(vec![p.rgba[4]]) },
    };
    let c = LiteParseConfig {
        detect_screenshot_rects: true,
        dpi: 96_000_000_000_000,
        ..Default::default()
    };
    let (container, noun) = page_words(OfficeKind::Pptx);
    let shots = rasterize_native_pages(&c, 2, &None, container, noun, &painter).unwrap();
    assert_eq!(shots.len(), 2);
    assert_eq!((shots[0].page_num, shots[1].page_num), (1, 2));
    assert!(shots[0].is_solid_fill && shots[0].rects.is_empty());
    assert!(!shots[1].is_solid_fill);
    assert_eq!(shots[1].rects.len(), 1);
    assert_eq!(shots[1].image_bytes, vec![0]);
    assert_eq!(white[0], shots[0].image_bytes[0]);

    let e = rasterize_native_pages(&c, 2, &Some(vec![1, 7]), container, noun, &painter).unwrap_err();
    assert!(matches!(e, LiteParseError::Other(_)));
    assert_eq!(e.message(), "page 7 out of range (deck has 2 slides)");
    // The first page that cannot be drawn is the one that is spoken of.
    let both = Some(vec![1, 3, 9]);
    let e = rasterize_native_pages(&c, 3, &both, container, noun, &painter).unwrap_err();
    assert_eq!(e.message(), "no surface");
    let e = rasterize_native_pages(&c, 3, &None, container, noun, &painter).unwrap_err();
    assert!(matches!(e, LiteParseError::Conversion(_)));
    assert_eq!(e.message(), "no surface");
    let e = rasterize_native_pages(&c, 0, &None, container, noun, &painter).unwrap_err();
    assert_eq!(e.message(), "native layout produced no slides");
    assert_eq!(page_words(OfficeKind::Docx), ("document", "pages"));
    assert_eq!(page_words(OfficeKind::Xlsx), ("workbook", "pages"));
}
