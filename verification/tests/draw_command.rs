use liteparse::draw_command::{
    DrawCommand, ImageFormat, LayoutedPage, MediaEntry, OutlineHeading, OutlineMark, ResolvedFill,
    RgbColor, ShapeTransform, TransformMark,
};
use liteparse::geometry::{PtLineSegment, PtOffset, PtRect, PtSize};
use liteparse::units::{Angle, Pt};

const BLACK: RgbColor = RgbColor { r: 0, g: 0, b: 0 };
const DX: f64 = 3.0;
const DY: f64 = 7.0;

fn pt(x: f64) -> Pt {
    Pt::from_emu((x * 12700.0).round() as i64)
}

fn raw(p: Pt) -> f64 {
    p.raw() as f64 / 12700.0
}

fn at(x: f64, y: f64) -> PtOffset {
    PtOffset::new(pt(x), pt(y))
}

fn text_at(x: f64, y: f64, text: &str) -> DrawCommand {
    DrawCommand::Text {
        position: at(x, y),
        text: text.into(),
        font_family: "Arial".into(),
        char_spacing: Pt::zero(),
        font_size: pt(12.0),
        bold: false,
        italic: false,
        color: BLACK,
        text_scale: 1000,
    }
}

#[test]
fn shift_y_moves_text() {
    let mut cmd = text_at(10.0, 20.0, "hi");
    cmd.shift_y(pt(5.0));
    if let DrawCommand::Text { position, .. } = cmd {
        assert_eq!(raw(position.y), 25.0);
        assert_eq!(raw(position.x), 10.0);
    } else {
        panic!();
    }
}

#[test]
fn shift_y_moves_line() {
    let mut cmd = DrawCommand::Line {
        line: PtLineSegment::new(at(0.0, 10.0), at(100.0, 10.0)),
        color: BLACK,
        width: pt(1.0),
    };
    cmd.shift_y(pt(50.0));
    if let DrawCommand::Line { line, .. } = cmd {
        assert_eq!(raw(line.start.y), 60.0, "Line y shifted");
    } else {
        panic!();
    }
}

#[test]
fn shift_y_moves_rect() {
    let mut cmd = DrawCommand::Rect {
        rect: PtRect::from_xywh(pt(0.0), pt(10.0), pt(50.0), pt(20.0)),
        color: BLACK,
    };
    cmd.shift_y(pt(100.0));
    if let DrawCommand::Rect { rect, .. } = cmd {
        assert_eq!(raw(rect.origin.y), 110.0);
    } else {
        panic!();
    }
}

#[test]
fn layouted_page_new() {
    let page = LayoutedPage::new(PtSize::new(pt(612.0), pt(792.0)));
    assert!(page.commands.is_empty());
    assert_eq!(raw(page.page_size.width), 612.0);
}

#[test]
fn shift_y_moves_path_origin() {
    let mut cmd = DrawCommand::Path {
        origin: at(10.0, 20.0),
        rotation: Angle { units: 0 },
        flip_h: false,
        flip_v: false,
        extent: PtSize::new(pt(100.0), pt(50.0)),
        paths: vec![],
        fill: ResolvedFill::NoFill,
        stroke: None,
        effects: vec![],
    };
    cmd.shift_y(pt(7.5));
    if let DrawCommand::Path { origin, .. } = cmd {
        assert_eq!(raw(origin.y), 27.5);
        assert_eq!(raw(origin.x), 10.0);
    } else {
        panic!();
    }
}

fn origin_of(cmd: &DrawCommand) -> (f64, f64) {
    match cmd {
        DrawCommand::Text { position, .. } | DrawCommand::NamedDestination { position, .. } => {
            (raw(position.x), raw(position.y))
        }
        DrawCommand::Underline { line, .. } | DrawCommand::Line { line, .. } => {
            (raw(line.start.x), raw(line.start.y))
        }
        DrawCommand::Image { rect, .. }
        | DrawCommand::EmojiCluster { rect, .. }
        | DrawCommand::Rect { rect, .. }
        | DrawCommand::LinkAnnotation { rect, .. }
        | DrawCommand::InternalLink { rect, .. } => (raw(rect.origin.x), raw(rect.origin.y)),
        DrawCommand::Path { origin, .. } => (raw(origin.x), raw(origin.y)),
        DrawCommand::Outline(_) => unreachable!("markers are tested separately"),
        DrawCommand::Transform(_) => unreachable!("brackets are tested separately"),
        DrawCommand::Float(_) => unreachable!("markers are tested separately"),
    }
}

#[test]
fn shift_moves_only_a_brackets_origin() {
    let placement = ShapeTransform {
        origin: at(10.0, 20.0),
        rotation: Angle { units: 60_000 },
        flip_h: false,
        flip_v: false,
        extent: PtSize::new(pt(4.0), pt(6.0)),
    };
    let mut begin = DrawCommand::Transform(TransformMark::Begin(placement));
    begin.shift(pt(DX), pt(DY));
    let DrawCommand::Transform(TransformMark::Begin(moved)) = &begin else {
        unreachable!()
    };
    assert_eq!(
        (raw(moved.origin.x), raw(moved.origin.y)),
        (10.0 + DX, 20.0 + DY)
    );
    assert_eq!(
        (raw(moved.extent.width), raw(moved.extent.height)),
        (4.0, 6.0)
    );
    assert_eq!(moved.rotation.units, 60_000, "shifting is not rotating");

    let mut end = DrawCommand::Transform(TransformMark::End);
    let before = format!("{end:?}");
    end.shift(pt(DX), pt(DY));
    assert_eq!(format!("{end:?}"), before);

    assert_eq!(begin.vertical_span(), None);
    assert_eq!(end.vertical_span(), None);
}

#[test]
fn shift_leaves_a_marker_be() {
    let heading = OutlineHeading {
        node_id: 7,
        level: 1,
        title: "Title".into(),
    };
    for mut cmd in [
        DrawCommand::Outline(OutlineMark::Begin(heading)),
        DrawCommand::Outline(OutlineMark::End),
    ] {
        let before = format!("{cmd:?}");
        cmd.shift(pt(DX), pt(DY));
        assert_eq!(format!("{cmd:?}"), before);
        assert_eq!(cmd.vertical_span(), None, "a marker occupies no band");
    }
}

/// A sample of each variant, all anchored at (10, 20).
fn one_of_each() -> Vec<(&'static str, DrawCommand)> {
    let rect = PtRect::from_xywh(pt(10.0), pt(20.0), pt(4.0), pt(4.0));
    let seg = PtLineSegment {
        start: at(10.0, 20.0),
        end: at(30.0, 20.0),
    };
    vec![
        ("Text", text_at(10.0, 20.0, "hi")),
        (
            "Underline",
            DrawCommand::Underline {
                line: seg,
                color: BLACK,
                width: pt(1.0),
            },
        ),
        (
            "Line",
            DrawCommand::Line {
                line: seg,
                color: BLACK,
                width: pt(1.0),
            },
        ),
        ("Rect", DrawCommand::Rect { rect, color: BLACK }),
        (
            "Image",
            DrawCommand::Image {
                rect,
                image_data: MediaEntry {
                    media: 1,
                    data: vec![0],
                    format: ImageFormat::Png,
                },
                src_rect: None,
                float: false,
            },
        ),
        (
            "EmojiCluster",
            DrawCommand::EmojiCluster {
                rect,
                text: "x".into(),
                typeface: 0,
                size: pt(12.0),
            },
        ),
        (
            "LinkAnnotation",
            DrawCommand::LinkAnnotation {
                rect,
                url: "https://example.invalid".into(),
                target: 1,
            },
        ),
        (
            "InternalLink",
            DrawCommand::InternalLink {
                rect,
                destination: "bm".into(),
                target: 2,
            },
        ),
        (
            "NamedDestination",
            DrawCommand::NamedDestination {
                position: at(10.0, 20.0),
                name: "bm".into(),
            },
        ),
        (
            "Path",
            DrawCommand::Path {
                origin: at(10.0, 20.0),
                rotation: Angle { units: 0 },
                flip_h: false,
                flip_v: false,
                extent: PtSize::new(pt(4.0), pt(4.0)),
                paths: Vec::new(),
                fill: ResolvedFill::NoFill,
                stroke: None,
                effects: Vec::new(),
            },
        ),
    ]
}

#[test]
fn vertical_span_follows_every_painting_variant() {
    for (name, cmd) in one_of_each() {
        let Some((top, bottom)) = cmd.vertical_span() else {
            continue;
        };
        let mut moved = cmd;
        moved.shift_y(pt(DY));
        let (top2, bottom2) = moved.vertical_span().expect("still paints");
        assert_eq!(raw(top2.minus(top)), DY, "{name} top");
        assert_eq!(raw(bottom2.minus(bottom)), DY, "{name} bottom");
        assert!(top.raw() <= bottom.raw(), "{name} band is inverted");
    }
}

#[test]
fn annotations_have_no_vertical_span() {
    for (name, cmd) in one_of_each() {
        let expected_none = matches!(
            cmd,
            DrawCommand::LinkAnnotation { .. }
                | DrawCommand::InternalLink { .. }
                | DrawCommand::NamedDestination { .. }
        );
        assert_eq!(
            cmd.vertical_span().is_none(),
            expected_none,
            "{name} disagrees about whether it paints",
        );
    }
}

#[test]
fn a_text_span_straddles_its_baseline() {
    let cmd = text_at(10.0, 20.0, "x");
    let (top, bottom) = cmd.vertical_span().unwrap();
    assert_eq!((raw(top), raw(bottom)), (8.0, 32.0));
}

#[test]
fn shift_moves_every_variant_on_both_axes() {
    for (name, mut cmd) in one_of_each() {
        cmd.shift(pt(DX), pt(DY));
        assert_eq!(origin_of(&cmd), (10.0 + DX, 20.0 + DY), "{name}");
    }
}

#[test]
fn shift_x_and_shift_y_move_one_axis_each() {
    for (name, mut cmd) in one_of_each() {
        cmd.shift_x(pt(DX));
        assert_eq!(origin_of(&cmd), (10.0 + DX, 20.0), "{name} shift_x");
    }
    for (name, mut cmd) in one_of_each() {
        cmd.shift_y(pt(DY));
        assert_eq!(origin_of(&cmd), (10.0, 20.0 + DY), "{name} shift_y");
    }
}

#[test]
fn shift_moves_both_ends_of_a_segment() {
    let mut cmd = DrawCommand::Line {
        line: PtLineSegment {
            start: at(10.0, 20.0),
            end: at(30.0, 20.0),
        },
        color: BLACK,
        width: pt(1.0),
    };
    cmd.shift(pt(DX), pt(DY));
    let DrawCommand::Line { line, .. } = cmd else {
        unreachable!()
    };
    assert_eq!((raw(line.start.x), raw(line.start.y)), (13.0, 27.0));
    assert_eq!((raw(line.end.x), raw(line.end.y)), (33.0, 27.0));
}

#[test]
fn shift_leaves_path_extent_and_geometry_alone() {
    let mut cmd = DrawCommand::Path {
        origin: at(10.0, 20.0),
        rotation: Angle { units: 0 },
        flip_h: false,
        flip_v: false,
        extent: PtSize::new(pt(4.0), pt(6.0)),
        paths: Vec::new(),
        fill: ResolvedFill::NoFill,
        stroke: None,
        effects: Vec::new(),
    };
    cmd.shift(pt(DX), pt(DY));
    let DrawCommand::Path { extent, .. } = cmd else {
        unreachable!()
    };
    assert_eq!((raw(extent.width), raw(extent.height)), (4.0, 6.0));
}

#[test]
fn shifting_there_and_back_changes_nothing() {
    for (name, mut cmd) in one_of_each() {
        let before = format!("{cmd:?}");
        cmd.shift(pt(DX), pt(DY));
        cmd.shift(pt(-DX), pt(-DY));
        assert_eq!(format!("{cmd:?}"), before, "{name}");
        cmd.shift(Pt::zero(), Pt::zero());
        assert_eq!(format!("{cmd:?}"), before, "{name} by nothing");
    }
}

#[test]
fn two_shifts_are_one() {
    for ((name, mut once), (_, mut twice)) in one_of_each().into_iter().zip(one_of_each()) {
        once.shift(pt(5.0), pt(-4.0));
        twice.shift(pt(2.0), pt(-3.0));
        twice.shift(pt(3.0), pt(-1.0));
        assert_eq!(format!("{once:?}"), format!("{twice:?}"), "{name}");
    }
}

#[test]
fn lengths_saturate() {
    let most = Pt::from_emu(i64::MAX);
    assert_eq!(most.plus(pt(1.0)), most);
    let least = Pt::from_emu(i64::MIN);
    assert_eq!(least.minus(pt(1.0)), least);
    assert_eq!(pt(1.0).min(pt(2.0)), pt(1.0));
    assert_eq!(pt(1.0).max(pt(2.0)), pt(2.0));
    assert_eq!(Pt::new(3), pt(3.0));
}

#[test]
fn a_hull_covers_both_boxes() {
    let a = PtRect::from_xywh(pt(0.0), pt(0.0), pt(10.0), pt(10.0)).flat();
    let b = PtRect::from_xywh(pt(20.0), pt(-5.0), pt(5.0), pt(5.0)).flat();
    let h = a.hull_with(&b);
    assert_eq!((h.x, h.y), (pt(0.0), pt(-5.0)));
    assert_eq!((h.right_edge(), h.bottom_edge()), (pt(25.0), pt(10.0)));
}
