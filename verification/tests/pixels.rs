//! Pages painted pixel by pixel, one pixel to a point.

use liteparse::draw_command::{
    DrawCommand, ImageFormat, LayoutedPage, MediaEntry, PathFillMode, PathVerb, ResolvedFill,
    Rgba, RgbColor, ShapeTransform, SubPath, TransformMark,
};
use liteparse::geometry::{PtLineSegment, PtOffset, PtRect, PtSize};
use liteparse::media::decode_media;
use liteparse::raster::{
    build_path, fill_paint, fills, place_transform, raster_plan, rule_width, FillChoice,
};
use liteparse::units::{Angle, Pt};
use tiny_skia::{
    Color, FillRule, IntSize, Paint, PathBuilder, Pixmap, PixmapPaint, Shader, Stroke, Transform,
};

/// The scale that makes one pixel of one point.
const ONE_TO_ONE: u64 = 72_000_000_000_000;

fn pt(x: f64) -> Pt {
    Pt::from_emu((x * 12700.0).round() as i64)
}

fn points(p: Pt) -> f32 {
    (p.emu as f64 / 12700.0) as f32
}

fn offset(x: f64, y: f64) -> PtOffset {
    PtOffset::new(pt(x), pt(y))
}

fn rect(x: f64, y: f64, w: f64, h: f64) -> PtRect {
    PtRect::from_xywh(pt(x), pt(y), pt(w), pt(h))
}

fn place(origin: (f64, f64), deg: i64, extent: (f64, f64)) -> ShapeTransform {
    ShapeTransform {
        origin: offset(origin.0, origin.1),
        rotation: Angle { units: deg * 60_000 },
        flip_h: false,
        flip_v: false,
        extent: PtSize::new(pt(extent.0), pt(extent.1)),
    }
}

fn page(commands: Vec<DrawCommand>) -> LayoutedPage {
    let mut page = LayoutedPage::new(PtSize::new(pt(100.0), pt(100.0)));
    page.commands = commands;
    page
}

const BLACK: RgbColor = RgbColor { r: 0, g: 0, b: 0 };

/// A page with one black rect, wrapped in `bracket`.
fn bracketed_rect(bracket: ShapeTransform, rect: PtRect) -> LayoutedPage {
    page(vec![
        DrawCommand::Transform(TransformMark::Begin(bracket)),
        DrawCommand::Rect { rect, color: BLACK },
        DrawCommand::Transform(TransformMark::End),
    ])
}

/// The library's placement as a transform of points.
fn transform(t: &ShapeTransform) -> Transform {
    let d = t.rotation.right_angle().expect("a right angle");
    let p = place_transform(t, d);
    let one = (1u64 << 30) as f64;
    let linear = |v: i64| (v as f64 / one) as f32;
    let shift = |v: i128| (v as f64 / (2.0 * one * 12700.0)) as f32;
    Transform::from_row(
        linear(p.sx),
        linear(p.ky),
        linear(p.kx),
        linear(p.sy),
        shift(p.tx),
        shift(p.ty),
    )
}

fn solid(color: Color) -> Paint<'static> {
    Paint {
        shader: Shader::SolidColor(color),
        anti_alias: true,
        ..Paint::default()
    }
}

fn rgb(c: RgbColor) -> Color {
    Color::from_rgba8(c.r, c.g, c.b, 255)
}

/// Paints a page of rects, lines, images and filled outlines.
fn rasterize(page: &LayoutedPage) -> Pixmap {
    let plan = raster_plan(page, ONE_TO_ONE);
    assert_eq!((plan.frame.width, plan.frame.height), (100, 100));
    let mut pixmap = Pixmap::new(plan.frame.width, plan.frame.height).unwrap();
    pixmap.fill(Color::WHITE);
    for step in &plan.steps {
        let mut device = Transform::identity();
        if let Some(i) = step.bracket {
            match &page.commands[i] {
                DrawCommand::Transform(TransformMark::Begin(t)) => {
                    device = device.pre_concat(transform(t));
                }
                other => panic!("{other:?} opens no bracket"),
            }
        }
        match &page.commands[step.command] {
            DrawCommand::Rect { rect, color } => {
                let r = tiny_skia::Rect::from_xywh(
                    points(rect.origin.x),
                    points(rect.origin.y),
                    points(rect.size.width),
                    points(rect.size.height),
                )
                .unwrap();
                pixmap.fill_rect(r, &solid(rgb(*color)), device, None);
            }
            DrawCommand::Line { line, color, width } => {
                let mut pb = PathBuilder::new();
                pb.move_to(points(line.start.x), points(line.start.y));
                pb.line_to(points(line.end.x), points(line.end.y));
                let stroke = Stroke {
                    width: points(rule_width(*width)),
                    ..Stroke::default()
                };
                let path = pb.finish().unwrap();
                pixmap.stroke_path(&path, &solid(rgb(*color)), &stroke, device, None);
            }
            DrawCommand::Image {
                rect,
                image_data,
                src_rect,
                ..
            } => {
                let b = decode_media(&image_data.data, image_data.format, *src_rect).unwrap();
                let size = IntSize::from_wh(b.width, b.height).unwrap();
                let source = Pixmap::from_vec(b.rgba, size).unwrap();
                let fitted = Transform::from_translate(points(rect.origin.x), points(rect.origin.y))
                    .pre_concat(Transform::from_scale(
                        points(rect.size.width) / b.width as f32,
                        points(rect.size.height) / b.height as f32,
                    ));
                pixmap.draw_pixmap(
                    0,
                    0,
                    source.as_ref(),
                    &PixmapPaint::default(),
                    device.pre_concat(fitted),
                    None,
                );
            }
            DrawCommand::Path {
                origin,
                rotation,
                flip_h,
                flip_v,
                extent,
                paths,
                fill,
                ..
            } => {
                let placed = ShapeTransform {
                    origin: *origin,
                    rotation: *rotation,
                    flip_h: *flip_h,
                    flip_v: *flip_v,
                    extent: *extent,
                };
                let device = device.pre_concat(transform(&placed));
                let color = match fill_paint(fill, None, *extent) {
                    FillChoice::Solid(c) => {
                        let channel = |v: i32| v as f32 / 1_000_000.0;
                        Color::from_rgba(channel(c.r), channel(c.g), channel(c.b), channel(c.a))
                            .unwrap()
                    }
                    other => panic!("{other:?} is no colour"),
                };
                for sub in paths.iter().filter(|sub| fills(sub)) {
                    let mut pb = PathBuilder::new();
                    for verb in build_path(sub) {
                        match verb {
                            PathVerb::MoveTo(p) => pb.move_to(points(p.x), points(p.y)),
                            PathVerb::LineTo(p) => pb.line_to(points(p.x), points(p.y)),
                            PathVerb::Close => pb.close(),
                            other => panic!("{other:?} is not drawn here"),
                        }
                    }
                    let path = pb.finish().unwrap();
                    pixmap.fill_path(&path, &solid(color), FillRule::EvenOdd, device, None);
                }
            }
            other => panic!("{other:?} is not painted here"),
        }
    }
    pixmap
}

/// Is the pixel at point `(x, y)` inked?
fn inked(raster: &Pixmap, x: usize, y: usize) -> bool {
    let i = (y * raster.width() as usize + x) * 4;
    raster.data()[i] < 128
}

#[test]
fn a_bracket_places_the_commands_it_opens() {
    let page = bracketed_rect(
        place((50.0, 50.0), 0, (20.0, 20.0)),
        rect(0.0, 0.0, 10.0, 10.0),
    );
    let r = rasterize(&page);
    assert!(inked(&r, 55, 55), "the rect lands at the bracket's origin");
    assert!(!inked(&r, 5, 5), "and not at the page origin");
}

#[test]
fn a_bracket_rotates_about_the_shape_centre() {
    let page = bracketed_rect(
        place((50.0, 50.0), 90, (20.0, 20.0)),
        rect(0.0, 0.0, 20.0, 10.0),
    );
    let r = rasterize(&page);
    assert!(
        inked(&r, 65, 60),
        "top strip turned into the right-hand one"
    );
    assert!(!inked(&r, 55, 60), "the left half is now empty");
}

#[test]
fn every_pass_honours_the_bracket() {
    let mut page = bracketed_rect(
        place((50.0, 50.0), 0, (20.0, 20.0)),
        rect(0.0, 0.0, 10.0, 10.0),
    );
    let square = SubPath {
        verbs: vec![
            PathVerb::MoveTo(offset(0.0, 10.0)),
            PathVerb::LineTo(offset(10.0, 10.0)),
            PathVerb::LineTo(offset(10.0, 20.0)),
            PathVerb::LineTo(offset(0.0, 20.0)),
            PathVerb::Close,
        ],
        fill_mode: PathFillMode::Norm,
        stroked: false,
    };
    page.commands.insert(
        2,
        DrawCommand::Path {
            origin: offset(0.0, 0.0),
            rotation: Angle { units: 0 },
            flip_h: false,
            flip_v: false,
            extent: PtSize::new(pt(20.0), pt(20.0)),
            paths: vec![square],
            fill: ResolvedFill::Solid(Rgba {
                r: 0,
                g: 0,
                b: 0,
                a: 1_000_000,
            }),
            stroke: None,
            effects: Vec::new(),
        },
    );
    let r = rasterize(&page);
    assert!(inked(&r, 55, 55), "shading pass placed by the bracket");
    assert!(inked(&r, 55, 65), "shape pass placed by the bracket too");
    assert!(!inked(&r, 5, 15), "neither drew at the page origin");
}

/// A page holding one black ink line, and one white image covering it.
fn line_under_image(float: bool) -> LayoutedPage {
    let mut png = std::io::Cursor::new(Vec::new());
    image::RgbaImage::from_pixel(4, 4, image::Rgba([255, 255, 255, 255]))
        .write_to(&mut png, image::ImageFormat::Png)
        .expect("encode");
    page(vec![
        DrawCommand::Line {
            line: PtLineSegment::new(offset(10.0, 30.0), offset(50.0, 30.0)),
            color: BLACK,
            width: pt(4.0),
        },
        DrawCommand::Image {
            rect: rect(0.0, 10.0, 60.0, 40.0),
            image_data: MediaEntry {
                media: 0,
                data: png.into_inner(),
                format: ImageFormat::Png,
            },
            src_rect: None,
            float,
        },
    ])
}

#[test]
fn a_floating_image_covers_ink_and_an_inline_one_does_not() {
    let inline = rasterize(&line_under_image(false));
    assert!(inked(&inline, 30, 30), "ink paints over an in-flow image");

    let floating = rasterize(&line_under_image(true));
    assert!(!inked(&floating, 30, 30), "a float paints over the ink");
    assert!(
        inked(&floating, 30, 5) == inked(&inline, 30, 5),
        "pixels outside the image are untouched by the flag"
    );
}
