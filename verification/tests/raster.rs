use liteparse::draw_command::{
    DrawCommand, FloatMark, GradientStopRgba, ImageFormat, LayoutedPage, MediaEntry, PathFillMode,
    PathVerb, ResolvedBlip, ResolvedDashPattern, ResolvedFill, ResolvedGradient,
    ResolvedGradientKind, ResolvedLineCap, ResolvedLineJoin, ResolvedPattern, ResolvedStroke, Rgba,
    RgbColor, ShapeTransform, SubPath, TransformMark,
};
use liteparse::geometry::{PtLineSegment, PtOffset, PtRect, PtSize};
use liteparse::raster::{
    arc_pieces, build_path, dash_array, effective_scale, fill_paint, fills, paint_plan,
    place_transform, raster_frame, raster_pass, raster_plan, rgba_color, rule_width, strokes,
    FillChoice, RasterPass, MAX_PAGE_PIXELS, ONE_DPI,
};
use liteparse::units::{Angle, Direction, Pt};

const BLACK: RgbColor = RgbColor { r: 0, g: 0, b: 0 };
const ONE: i64 = 1 << 30;

fn pt(x: f64) -> Pt {
    Pt::from_emu((x * 12700.0).round() as i64)
}

fn page_of(commands: Vec<DrawCommand>, w: f64, h: f64) -> LayoutedPage {
    let mut page = LayoutedPage::new(PtSize::new(pt(w), pt(h)));
    page.commands = commands;
    page
}

fn rect(x: f64, y: f64, w: f64, h: f64) -> PtRect {
    PtRect::from_xywh(pt(x), pt(y), pt(w), pt(h))
}

fn place(origin: (f64, f64), deg: i64, extent: (f64, f64)) -> ShapeTransform {
    ShapeTransform {
        origin: PtOffset::new(pt(origin.0), pt(origin.1)),
        rotation: Angle { units: deg * 60_000 },
        flip_h: false,
        flip_v: false,
        extent: PtSize::new(pt(extent.0), pt(extent.1)),
    }
}

fn media() -> MediaEntry {
    MediaEntry {
        media: 1,
        data: vec![0],
        format: ImageFormat::Png,
    }
}

fn image(float: bool) -> DrawCommand {
    DrawCommand::Image {
        rect: rect(0.0, 10.0, 60.0, 40.0),
        image_data: media(),
        src_rect: None,
        float,
    }
}

fn line() -> DrawCommand {
    DrawCommand::Line {
        line: PtLineSegment::new(
            PtOffset::new(pt(10.0), pt(30.0)),
            PtOffset::new(pt(50.0), pt(30.0)),
        ),
        color: BLACK,
        width: pt(4.0),
    }
}

fn path(paths: Vec<SubPath>) -> DrawCommand {
    DrawCommand::Path {
        origin: PtOffset::new(Pt::zero(), Pt::zero()),
        rotation: Angle { units: 0 },
        flip_h: false,
        flip_v: false,
        extent: PtSize::new(pt(20.0), pt(20.0)),
        paths,
        fill: ResolvedFill::Solid(Rgba { r: 0, g: 0, b: 0, a: 1_000_000 }),
        stroke: None,
        effects: Vec::new(),
    }
}

/// Where a placement sends a point, in points.
fn sent(t: &ShapeTransform, d: Direction, x: f64, y: f64) -> (f64, f64) {
    let p = place_transform(t, d);
    let one = ONE as f64;
    let (x, y) = (x * 12700.0, y * 12700.0);
    let tx = p.tx as f64 / (2.0 * one);
    let ty = p.ty as f64 / (2.0 * one);
    (
        (p.sx as f64 / one * x + p.kx as f64 / one * y + tx) / 12700.0,
        (p.ky as f64 / one * x + p.sy as f64 / one * y + ty) / 12700.0,
    )
}

fn near(a: (f64, f64), b: (f64, f64)) -> bool {
    (a.0 - b.0).abs() < 0.01 && (a.1 - b.1).abs() < 0.01
}

#[test]
fn a_page_that_fits_keeps_the_scale_it_asked_for() {
    let requested = 150 * ONE_DPI;
    assert_eq!(effective_scale(pt(612.0), pt(792.0), requested), requested);
    // Exactly at the ceiling is still "fits".
    let edge = ((MAX_PAGE_PIXELS as f64 / (612.0 * 792.0)).sqrt() * 72e12) as u64;
    assert_eq!(effective_scale(pt(612.0), pt(792.0), edge), edge);
}

#[test]
fn an_extremely_wide_sheet_is_clamped_under_the_ceiling() {
    let (w, h) = (861_149.0_f64, 1_965.0_f64);
    let scale = effective_scale(pt(w), pt(h), 150 * ONE_DPI);
    assert!(scale < 150 * ONE_DPI, "a 2,960 MP page must be clamped");
    let per_point = scale as f64 / 72e12;
    let px = (w * per_point).round() as u64 * (h * per_point).round() as u64;
    assert!(
        px <= MAX_PAGE_PIXELS,
        "clamped raster is {px} px, over the {MAX_PAGE_PIXELS} ceiling"
    );
}

#[test]
fn clamping_preserves_the_page_aspect_ratio() {
    let (w, h) = (200_000_u128, 500_u128);
    let page = page_of(Vec::new(), w as f64, h as f64);
    let r = raster_plan(&page, 150 * ONE_DPI).frame;
    assert!(r.scale < 150 * ONE_DPI, "this page must have been clamped");
    let dots = |side: u128| side * u128::from(r.scale) / (72 * u128::from(ONE_DPI));
    assert_eq!(u128::from(r.width), dots(w));
    assert_eq!(u128::from(r.height), dots(h));
    assert_eq!((r.width, r.height), (113_137, 282));
    assert!(u64::from(r.width) * u64::from(r.height) <= MAX_PAGE_PIXELS);
}

#[test]
fn a_page_of_any_size_keeps_some_scale() {
    let side = pt(1e9);
    let scale = effective_scale(side, side, 150 * ONE_DPI);
    assert!(scale > 0);
    let per_point = scale as f64 / 72e12;
    let edge = (1e9 * per_point) as u64;
    assert_eq!(edge, 5656); // the square root of the ceiling
    assert!(edge * edge <= MAX_PAGE_PIXELS);
}

fn letters(s: &str) -> DrawCommand {
    DrawCommand::Text {
        position: PtOffset::new(pt(1.0), pt(2.0)),
        text: s.into(),
        font_family: "Body".into(),
        char_spacing: Pt::zero(),
        font_size: pt(10.0),
        bold: false,
        italic: false,
        color: RgbColor { r: 0, g: 0, b: 0 },
        text_scale: 1000,
    }
}

#[test]
fn what_paints_in_other_layers_may_change_places() {
    let shade = || DrawCommand::Rect {
        rect: PtRect {
            origin: PtOffset::new(pt(0.0), pt(0.0)),
            size: PtSize::new(pt(5.0), pt(5.0)),
        },
        color: RgbColor { r: 9, g: 9, b: 9 },
    };
    let link = || DrawCommand::LinkAnnotation {
        rect: PtRect {
            origin: PtOffset::new(pt(0.0), pt(0.0)),
            size: PtSize::new(pt(5.0), pt(5.0)),
        },
        url: "u".into(),
        target: 0,
    };
    let order = |commands: Vec<DrawCommand>| -> Vec<String> {
        let steps = paint_plan(&commands);
        steps.iter().map(|s| format!("{:?} {:?}", s.pass, commands[s.command])).collect()
    };
    let plain = order(vec![letters("a"), shade(), letters("b")]);
    assert_eq!(plain.len(), 3);
    assert_eq!(order(vec![shade(), letters("a"), letters("b")]), plain);
    assert_eq!(order(vec![letters("a"), letters("b"), shade()]), plain);
    assert_eq!(order(vec![link(), letters("a"), shade(), link(), letters("b")]), plain);
    // Within one layer the order of the list counts.
    assert_ne!(order(vec![letters("b"), shade(), letters("a")]), plain);
}

#[test]
fn a_letter_page_at_150_dpi_has_its_pixels() {
    let frame = raster_frame(PtSize::new(pt(612.0), pt(792.0)), 150 * ONE_DPI);
    assert_eq!((frame.width, frame.height), (1275, 1650));
    assert!(!frame.clamped);
    assert_eq!(frame.scale, 150 * ONE_DPI);
    // Nothing at all still has a pixel.
    let dot = raster_frame(PtSize::new(Pt::zero(), Pt::zero()), 1);
    assert_eq!((dot.width, dot.height), (1, 1));
}

#[test]
fn a_plain_bracket_moves_what_it_opens() {
    let t = place((50.0, 50.0), 0, (20.0, 20.0));
    let d = Direction { sin: 0, cos: ONE };
    assert!(near(sent(&t, d, 0.0, 0.0), (50.0, 50.0)));
    assert!(near(sent(&t, d, 10.0, 10.0), (60.0, 60.0)));
}

#[test]
fn a_bracket_turns_about_the_centre() {
    let t = place((50.0, 50.0), 90, (20.0, 20.0));
    let d = t.rotation.right_angle().unwrap();
    // The centre stays, and the top strip becomes the right-hand one.
    assert!(near(sent(&t, d, 10.0, 10.0), (60.0, 60.0)));
    assert!(near(sent(&t, d, 10.0, 5.0), (65.0, 60.0)));
    assert!(near(sent(&t, d, 10.0, 15.0), (55.0, 60.0)));
}

#[test]
fn every_pass_knows_its_bracket() {
    let square = SubPath {
        verbs: vec![
            PathVerb::MoveTo(PtOffset::new(pt(0.0), pt(10.0))),
            PathVerb::LineTo(PtOffset::new(pt(10.0), pt(10.0))),
            PathVerb::Close,
        ],
        fill_mode: PathFillMode::Norm,
        stroked: false,
    };
    let plan = paint_plan(&vec![
        DrawCommand::Transform(TransformMark::Begin(place((50.0, 50.0), 0, (20.0, 20.0)))),
        DrawCommand::Rect { rect: rect(0.0, 0.0, 10.0, 10.0), color: BLACK },
        path(vec![square]),
        DrawCommand::Transform(TransformMark::End),
        line(),
    ]);
    let seen: Vec<(RasterPass, usize, Option<usize>)> =
        plan.iter().map(|s| (s.pass, s.command, s.bracket)).collect();
    assert_eq!(
        seen,
        vec![
            (RasterPass::Shape, 2, Some(0)),
            (RasterPass::Shading, 1, Some(0)),
            (RasterPass::Ink, 4, None),
        ]
    );
}

#[test]
fn a_floating_image_comes_after_ink_and_an_inline_one_before() {
    let passes = |float: bool| -> Vec<usize> {
        paint_plan(&vec![line(), image(float)])
            .iter()
            .map(|s| s.command)
            .collect()
    };
    assert_eq!(passes(false), vec![1, 0], "ink paints over an in-flow image");
    assert_eq!(passes(true), vec![0, 1], "a float paints over the ink");
}

#[test]
fn what_a_float_brackets_floats() {
    let plan = paint_plan(&vec![
        DrawCommand::Float(FloatMark::Begin),
        DrawCommand::Rect { rect: rect(0.0, 0.0, 1.0, 1.0), color: BLACK },
        DrawCommand::Float(FloatMark::End),
        line(),
    ]);
    assert_eq!(plan.len(), 2);
    assert_eq!((plan[0].pass, plan[0].command), (RasterPass::Ink, 3));
    assert_eq!((plan[1].pass, plan[1].command), (RasterPass::Float, 1));
}

#[test]
fn markers_and_annotations_paint_in_no_pass() {
    assert_eq!(raster_pass(&DrawCommand::Float(FloatMark::Begin)), None);
    assert_eq!(raster_pass(&DrawCommand::Transform(TransformMark::End)), None);
    let link = DrawCommand::LinkAnnotation {
        rect: rect(0.0, 0.0, 1.0, 1.0),
        url: "u".into(),
        target: 0,
    };
    assert_eq!(raster_pass(&link), None);
    assert_eq!(raster_pass(&image(false)), Some(RasterPass::Media));
    assert_eq!(raster_pass(&image(true)), Some(RasterPass::Float));
    assert_eq!(raster_pass(&line()), Some(RasterPass::Ink));
}

#[test]
fn a_fill_is_chosen_by_its_kind() {
    let red = Rgba { r: 1_000_000, g: 0, b: 0, a: 500_000 };
    let blue = Rgba { r: 0, g: 0, b: 1_000_000, a: 1_000_000 };
    let extent = PtSize::new(pt(10.0), pt(20.0));
    assert!(matches!(
        fill_paint(&ResolvedFill::NoFill, None, extent),
        FillChoice::Nothing
    ));
    match fill_paint(&ResolvedFill::Solid(red), None, extent) {
        FillChoice::Solid(c) => assert_eq!(c, red),
        _ => panic!(),
    }
    let gradient = ResolvedFill::Gradient(ResolvedGradient {
        stops: vec![
            GradientStopRgba { position: 0, color: red },
            GradientStopRgba { position: 1_000_000, color: red },
        ],
        kind: ResolvedGradientKind::Radial,
    });
    match fill_paint(&gradient, None, extent) {
        FillChoice::Solid(c) => assert_eq!(c, red, "the mean of equal stops"),
        _ => panic!(),
    }
    let pattern = ResolvedFill::Pattern(ResolvedPattern {
        preset: "pct50".into(),
        fg: blue,
        bg: red,
    });
    assert!(matches!(fill_paint(&pattern, None, extent), FillChoice::Nothing));
    let blip = ResolvedFill::Blip(ResolvedBlip { image: media(), src_rect: None });
    match fill_paint(&blip, Some((4, 2)), extent) {
        FillChoice::Stretch { image_width, image_height, extent: e } => {
            assert_eq!((image_width, image_height, e), (4, 2, extent));
        }
        _ => panic!(),
    }
    assert!(matches!(fill_paint(&blip, None, extent), FillChoice::Nothing));
}

#[test]
fn colours_are_brought_into_range() {
    let c = rgba_color(Rgba { r: -5, g: 2_000_000, b: 7, a: 1_000_001 });
    assert_eq!(c, Rgba { r: 0, g: 1_000_000, b: 7, a: 1_000_000 });
}

#[test]
fn a_path_is_built_from_what_can_be_drawn() {
    let sub = |verbs: Vec<PathVerb>| SubPath {
        verbs,
        fill_mode: PathFillMode::NoFill,
        stroked: true,
    };
    let o = PtOffset::new(Pt::zero(), Pt::zero());
    let arc = PathVerb::ArcTo {
        radii: PtSize::new(pt(1.0), pt(1.0)),
        start_angle: Angle { units: 0 },
        swing_angle: Angle { units: 5_400_000 },
    };
    // An arc needs a pen to start from.
    assert!(build_path(&sub(vec![arc])).is_empty());
    let kept = build_path(&sub(vec![PathVerb::MoveTo(o), arc]));
    assert_eq!(kept, vec![PathVerb::MoveTo(o), arc]);
    let s = sub(vec![]);
    assert!(!fills(&s));
    assert!(!strokes(&s, &None));
    let pen = Some(ResolvedStroke {
        width: pt(1.0),
        color: Rgba { r: 0, g: 0, b: 0, a: 1_000_000 },
        dash: ResolvedDashPattern::Solid,
        cap: ResolvedLineCap::Butt,
        join: ResolvedLineJoin::Miter,
    });
    assert!(strokes(&s, &pen));
}

#[test]
fn no_piece_of_an_arc_spans_more_than_five_degrees() {
    assert_eq!(arc_pieces(Angle { units: 0 }), 1);
    assert_eq!(arc_pieces(Angle { units: 300_000 }), 1);
    assert_eq!(arc_pieces(Angle { units: 5_400_000 }), 18);
    assert_eq!(arc_pieces(Angle { units: -5_400_001 }), 19);
}

#[test]
fn dashes_and_rules_have_a_least_size() {
    assert_eq!(dash_array(&ResolvedDashPattern::Solid), None);
    assert_eq!(
        dash_array(&ResolvedDashPattern::Dashes(vec![pt(3.0), pt(1.0)])),
        Some(vec![pt(3.0), pt(1.0)])
    );
    assert_eq!(rule_width(pt(2.0)), pt(2.0));
    assert_eq!(rule_width(Pt::zero()), pt(0.2));
}
