use liteparse::draw_command::{
    DrawCommand, PathFillMode, PathVerb, ResolvedFill, RgbColor, Rgba, SubPath, TransformMark,
};
use liteparse::docx_layout::RunMetrics;
use liteparse::geometry::{PtOffset, PtRect, PtSize};
use liteparse::pptx_layout::{layout_deck, ReadShape, SlideInput};
use liteparse::pptx_paint::{
    paint_background, paint_shapes, run_color, Background, DeclaredFill, GroupFill, PaintKind,
    PaintShape, Rung, ShapeInk, SlideTally,
};
use liteparse::pptx_shapes::{
    body_rect, build_geometry, emu_to_pt, Frame, ShapeGeometry, ShapePath, SlideRect,
    ROUND_RECT_ADJUST,
};
use liteparse::pptx_style::{
    body_blocks, collect_run_fragments, paragraph_style, spacing_to_pt, theme_family, Alignment,
    BodyParagraph, Fragment, Inline, LineSpacingRule, ResolvedTextStyle, RunContext, RunElement,
    RunFont, ShapeAutoFit, Spacing, Theme, ThemeFontScheme,
};
use liteparse::pptx_table::{
    cell_boxes, column_edges, grown_row_heights, prefix_edges, BodyLayout, CellLayout, CellText, Table,
    TableCell, TableRow,
};
use liteparse::pptx_text::{layout_shapes, SlideText, TextShape};
use liteparse::units::{Angle, Direction, Pt};

const ONE: i64 = 1 << 30;

fn pt(x: f64) -> Pt {
    Pt::from_emu((x * 12700.0).round() as i64)
}

fn raw(p: Pt) -> f64 {
    p.raw() as f64 / 12700.0
}

fn theme_with(major: &str, minor: &str) -> Theme {
    Theme {
        major_font: ThemeFontScheme { latin: major.to_string() },
        minor_font: ThemeFontScheme { latin: minor.to_string() },
    }
}

#[test]
fn theme_font_splits_title_from_body() {
    let theme = Some(theme_with("Georgia", "Verdana"));
    assert_eq!(theme_family(&theme, true), "Georgia");
    assert_eq!(theme_family(&theme, false), "Verdana");
}

#[test]
fn theme_font_falls_back_when_absent_or_empty() {
    assert_eq!(theme_family(&None, false), "Arial");
    let empty = Some(theme_with("", ""));
    assert_eq!(theme_family(&empty, true), "Arial");
}

#[test]
fn percent_spacing_is_a_fraction_of_the_font_size() {
    let size = pt(20.0);
    let half = Spacing::Percent(50_000);
    assert_eq!(spacing_to_pt(Some(half), size), pt(10.0));
    assert_eq!(spacing_to_pt(None, size), Pt::zero());
}

#[test]
fn points_spacing_is_absolute() {
    let pts = Spacing::Points(1_200);
    assert_eq!(spacing_to_pt(Some(pts), pt(20.0)), pt(12.0));
}

#[test]
fn emu_converts_at_12700_per_point() {
    assert_eq!(emu_to_pt(914_400), pt(72.0));
    assert_eq!(emu_to_pt(0), Pt::zero());
}

fn body(width: f64, height: f64, commands: Vec<DrawCommand>) -> BodyLayout {
    let runs = commands
        .iter()
        .map(|_| RunMetrics {
            advance: pt(30.0),
            ascent: pt(11.0),
            descent: pt(3.0),
            prefix: vec![],
        })
        .collect();
    let extent = PtSize::new(pt(width), pt(height));
    BodyLayout { extent, commands, runs, colors: vec![], shrunk: false }
}

fn cell(row: usize, row_span: usize, needed: f64) -> CellLayout {
    CellLayout {
        row,
        row_span,
        left: Pt::zero(),
        width: pt(100.0),
        needed: pt(needed),
        body: body(100.0, needed, vec![]),
    }
}

#[test]
fn prefix_edges_bracket_every_track() {
    let e = prefix_edges(&vec![pt(10.0), pt(20.0), pt(5.0)]);
    assert_eq!(e, vec![Pt::zero(), pt(10.0), pt(30.0), pt(35.0)]);
    // A cell spanning columns 1..3 reads its span straight off the edges.
    assert_eq!(e[3].minus(e[1]), pt(25.0));
    // No tracks is one edge, not zero.
    assert_eq!(prefix_edges(&vec![]), vec![Pt::zero()]);
}

#[test]
fn row_grows_to_its_tallest_cell_but_never_shrinks() {
    let declared = vec![pt(20.0), pt(50.0)];
    let grown = grown_row_heights(&declared, &vec![cell(0, 1, 35.0), cell(1, 1, 10.0)]);
    assert_eq!(grown, vec![pt(35.0), pt(50.0)]);
}

#[test]
fn zero_declared_height_is_grown_not_taken_literally() {
    let grown = grown_row_heights(
        &vec![Pt::zero(), Pt::zero()],
        &vec![cell(0, 1, 18.0), cell(1, 1, 24.0)],
    );
    assert_eq!(grown, vec![pt(18.0), pt(24.0)]);
    let edges = prefix_edges(&grown);
    assert_eq!(edges[1], pt(18.0));
    assert!(edges[2].raw() > edges[1].raw(), "rows must not share an edge");
}

#[test]
fn a_row_spanning_cell_does_not_grow_the_row_it_starts_in() {
    let declared = vec![pt(10.0), pt(10.0)];
    let grown = grown_row_heights(&declared, &vec![cell(0, 2, 500.0)]);
    assert_eq!(grown, declared);
}

#[test]
fn a_cell_naming_a_row_off_the_end_is_ignored() {
    let declared = vec![pt(10.0)];
    assert_eq!(
        grown_row_heights(&declared, &vec![cell(7, 1, 99.0)]),
        declared
    );
}

fn direction(deg: i64) -> Direction {
    Angle { units: deg * 60_000 }.right_angle().unwrap()
}

fn slide_rect(x: f64, y: f64, w: f64, h: f64, deg: i64) -> SlideRect {
    let rect = PtRect::from_xywh(pt(x), pt(y), pt(w), pt(h));
    SlideRect {
        rect,
        bounding_box: rect,
        rotation: Angle { units: deg * 60_000 },
        direction: direction(deg),
        flip_h: false,
        flip_v: false,
    }
}

fn frame(x: f64, y: f64, w: f64, h: f64, deg: i64) -> Frame {
    Frame::new(&slide_rect(x, y, w, h, deg), size(w, h))
}

fn size(w: f64, h: f64) -> PtSize {
    PtSize { width: pt(w), height: pt(h) }
}

fn offset(x: f64, y: f64) -> PtOffset {
    PtOffset::new(pt(x), pt(y))
}

#[test]
fn an_unrotated_shape_brackets_at_its_own_origin() {
    let placed = frame(100.0, 50.0, 200.0, 80.0, 0).place(offset(0.0, 0.0), size(200.0, 80.0));
    assert_eq!((raw(placed.origin.x), raw(placed.origin.y)), (100.0, 50.0));
    assert_eq!(placed.rotation.units, 0);
    assert_eq!(placed.extent.width, pt(200.0));
}

#[test]
fn a_rotated_shape_keeps_its_origin() {
    let placed = frame(100.0, 50.0, 200.0, 80.0, 90).place(offset(0.0, 0.0), size(200.0, 80.0));
    assert_eq!((raw(placed.origin.x), raw(placed.origin.y)), (100.0, 50.0));
    assert_eq!(placed.rotation.units, 5_400_000, "the bracket carries @rot");
}

#[test]
fn a_cell_rotates_about_the_frame_centre_not_its_own() {
    let placed = frame(0.0, 0.0, 200.0, 80.0, 90).place(offset(0.0, 0.0), size(40.0, 20.0));
    assert_eq!((raw(placed.origin.x), raw(placed.origin.y)), (110.0, -50.0));

    // Unrotated, the same cell is simply at its offset in the frame.
    let flat = frame(0.0, 0.0, 200.0, 80.0, 0).place(offset(5.0, 7.0), size(40.0, 20.0));
    assert_eq!((raw(flat.origin.x), raw(flat.origin.y)), (5.0, 7.0));
}

#[test]
fn a_bracket_never_carries_a_flip() {
    let placed = frame(0.0, 0.0, 10.0, 10.0, 0).place(offset(0.0, 0.0), size(10.0, 10.0));
    assert!(!placed.flip_h && !placed.flip_v);
}

#[test]
fn a_round_rect_lays_its_body_out_inside_its_corner_arcs() {
    let r = body_rect(
        &Some(ShapeGeometry::RoundRect { adjust: ROUND_RECT_ADJUST }),
        size(100.0, 100.0),
    );
    let inset = raw(r.origin.x);
    assert!(
        (inset - 4.88).abs() < 0.05,
        "expected the 29.289% sagitta, got {inset}"
    );
    assert!((raw(r.origin.y) - inset).abs() < 0.01);
    assert!((raw(r.size.width) - (100.0 - 2.0 * inset)).abs() < 0.05);
    assert!((raw(r.size.height) - (100.0 - 2.0 * inset)).abs() < 0.05);
}

#[test]
fn a_plain_rect_gets_its_whole_box() {
    let r = body_rect(&Some(ShapeGeometry::Rect), size(100.0, 60.0));
    assert_eq!((raw(r.origin.x), raw(r.origin.y)), (0.0, 0.0));
    assert_eq!((raw(r.size.width), raw(r.size.height)), (100.0, 60.0));
}

#[test]
fn a_shape_declaring_no_geometry_gets_its_whole_box() {
    let r = body_rect(&None, size(80.0, 40.0));
    assert_eq!((raw(r.size.width), raw(r.size.height)), (80.0, 40.0));
}

#[test]
fn an_undefined_preset_still_gets_its_box_to_lay_text_out_in() {
    let r = body_rect(
        &Some(ShapeGeometry::Undefined("nonesuch".into())),
        size(80.0, 40.0),
    );
    assert_eq!((raw(r.size.width), raw(r.size.height)), (80.0, 40.0));
}

#[test]
fn an_undefined_preset_draws_nothing() {
    assert!(build_geometry(ShapeGeometry::Undefined("nonesuch".into()), size(80.0, 40.0)).is_none());
    let square = build_geometry(ShapeGeometry::Rect, size(80.0, 40.0)).unwrap();
    assert_eq!(square.paths.len(), 1);
    assert_eq!(square.paths[0].verbs.len(), 5);
}

#[test]
fn a_level_line_is_drawn_though_it_has_no_height() {
    let line = || ShapePath {
        paths: vec![SubPath {
            verbs: vec![
                PathVerb::MoveTo(offset(0.0, 0.0)),
                PathVerb::LineTo(offset(80.0, 0.0)),
            ],
            fill_mode: PathFillMode::Norm,
            stroked: true,
        }],
        text_rect: None,
    };
    let flat = size(80.0, 0.0);
    let drawn = build_geometry(ShapeGeometry::Built(line()), flat).unwrap();
    assert_eq!(drawn.paths[0].verbs.len(), 2);
    assert_eq!(body_rect(&Some(ShapeGeometry::Built(line())), flat).size, flat);
    // A rectangle needs an extent.
    assert!(build_geometry(ShapeGeometry::Rect, flat).is_none());
    let round = ShapeGeometry::RoundRect { adjust: ROUND_RECT_ADJUST };
    assert!(build_geometry(round, flat).is_none());
}

fn text_cmd(text: &str) -> DrawCommand {
    DrawCommand::Text {
        position: offset(1.0, 20.0),
        text: text.into(),
        font_family: "Arial".into(),
        char_spacing: Pt::zero(),
        font_size: pt(12.0),
        bold: false,
        italic: false,
        color: RgbColor { r: 0, g: 0, b: 0 },
        text_scale: 1000,
    }
}

fn text_body(text: &str) -> TextShape {
    TextShape::Body {
        slide_rect: Some(slide_rect(100.0, 50.0, 200.0, 80.0, 0)),
        geometry: None,
        body: body(200.0, 80.0, vec![text_cmd(text)]),
    }
}

fn blank_slide() -> SlideText {
    SlideText {
        items: vec![],
        commands: vec![],
        placements: vec![],
        tally: SlideTally::new(),
        background: None,
    }
}

#[test]
fn a_body_is_bracketed_and_its_items_stand_on_the_slide() {
    let mut slide = blank_slide();
    layout_shapes(vec![TextShape::Group(vec![text_body("hi")]), TextShape::Diagram], &mut slide);
    assert_eq!(slide.commands.len(), 3);
    assert!(matches!(
        slide.commands[0],
        DrawCommand::Transform(TransformMark::Begin(_))
    ));
    assert!(matches!(
        slide.commands[2],
        DrawCommand::Transform(TransformMark::End)
    ));
    assert_eq!(slide.items.len(), 1);
    assert_eq!(slide.items[0].text, "hi");
    assert_eq!(slide.items[0].x, pt(101.0));
    assert_eq!(slide.items[0].y, pt(50.0 + 20.0 - 11.0));
    assert_eq!(slide.placements.len(), 1);
    assert_eq!((slide.placements[0].first_item, slide.placements[0].end_item), (0, 1));
    assert_eq!(slide.placements[0].bracket, 0);
    assert_eq!(slide.tally.unplaced_diagram_bodies, 1);
}

#[test]
fn a_table_places_its_cells_row_by_row() {
    let text_cell = |needed: f64, height: f64| TableCell {
        grid_span: 1,
        row_span: 1,
        absorbed: false,
        text: Some(CellText {
            empty: false,
            needed: pt(needed),
            body: body(50.0, height, vec![text_cmd("x")]),
        }),
    };
    let table = Table {
        grid: vec![12700 * 50, 12700 * 50],
        rows: vec![
            TableRow { height: Some(0), cells: vec![text_cell(30.0, 30.0), text_cell(10.0, 30.0)] },
            TableRow {
                height: Some(12700 * 40),
                cells: vec![text_cell(5.0, 40.0), text_cell(5.0, 40.0)],
            },
        ],
    };
    assert_eq!(column_edges(&table.grid), vec![pt(0.0), pt(50.0), pt(100.0)]);
    // The boxes are known before any text is placed.
    let boxes = cell_boxes(&table);
    assert_eq!(boxes.len(), 4);
    assert_eq!((boxes[3].row, boxes[3].cell), (1, 1));
    assert_eq!(boxes[3].offset, PtOffset::new(pt(50.0), pt(30.0)));
    for b in &boxes {
        let text = table.rows[b.row].cells[b.cell].text.as_ref().unwrap();
        assert_eq!(text.body.extent, b.extent);
    }
    let mut slide = blank_slide();
    layout_shapes(
        vec![TextShape::Table { slide_rect: Some(slide_rect(0.0, 0.0, 100.0, 80.0, 0)), table }],
        &mut slide,
    );
    assert_eq!(slide.placements.len(), 4);
    assert_eq!(slide.tally.placed_table_cells, 4);
    assert_eq!(slide.items[0].x, pt(1.0));
    assert_eq!(slide.items[1].x, pt(51.0));
    // The second row starts where the grown first one ends.
    assert_eq!(slide.items[2].y, pt(30.0 + 20.0 - 11.0));
}

fn ink(fill: ResolvedFill, declared: DeclaredFill) -> ShapeInk {
    ShapeInk {
        geometry: Some(ShapeGeometry::Rect),
        declared_fill: declared,
        fill,
        outline_declared: false,
        stroke: None,
        stroke_color_defaulted: false,
        effects: vec![],
    }
}

const RED: Rgba = Rgba { r: 1_000_000, g: 0, b: 0, a: 1_000_000 };

#[test]
fn a_group_lends_its_fill_to_those_that_ask() {
    let child = PaintShape {
        slide_rect: Some(slide_rect(0.0, 0.0, 10.0, 10.0, 0)),
        style: None,
        kind: PaintKind::AutoShape {
            ink: Some(ink(ResolvedFill::NoFill, DeclaredFill::Group)),
            paragraphs: vec![],
        },
    };
    let group = PaintShape {
        slide_rect: None,
        style: None,
        kind: PaintKind::Group {
            fill: GroupFill::Own(ResolvedFill::Solid(RED)),
            children: vec![child],
        },
    };
    let mut tally = SlideTally::new();
    let mut commands = vec![];
    paint_shapes(vec![group], Rung::Slide, &None, &mut tally, &mut commands);
    assert_eq!(commands.len(), 1);
    match &commands[0] {
        DrawCommand::Path { fill: ResolvedFill::Solid(c), .. } => assert_eq!(*c, RED),
        _ => panic!("the child takes the group's fill"),
    }
    assert_eq!(tally.fills_from_group, 1);
    assert_eq!(tally.painted_shapes, 1);
}

#[test]
fn a_background_covers_the_slide_or_counts_why_not() {
    let mut tally = SlideTally::new();
    let mut commands = vec![];
    let page = size(720.0, 540.0);
    let solid = Background { fill: ResolvedFill::Solid(RED), declared_none: false };
    let (at, rgb) = paint_background(Some(solid), page, &mut tally, &mut commands);
    assert_eq!(at, Some(0));
    assert_eq!(rgb, Some(0xff0000));
    assert_eq!(tally.painted_backgrounds, 1);
    let (none, _) = paint_background(None, page, &mut tally, &mut commands);
    assert_eq!(none, None);
    assert_eq!(tally.undeclared_backgrounds, 1);
    let clear = Background { fill: ResolvedFill::NoFill, declared_none: true };
    paint_background(Some(clear), page, &mut tally, &mut commands);
    assert_eq!(tally.transparent_backgrounds, 1);
    assert_eq!(commands.len(), 1);
}

#[test]
fn a_run_without_a_colour_is_black_and_counted() {
    let mut tally = SlideTally::new();
    assert_eq!(run_color(None, None, &mut tally), RgbColor { r: 0, g: 0, b: 0 });
    assert_eq!(
        run_color(Some(0x102030), Some(0x102030), &mut tally),
        RgbColor { r: 0x10, g: 0x20, b: 0x30 }
    );
    assert_eq!(tally.runs_colour_defaulted, 1);
    assert_eq!(tally.runs_colour_declared, 1);
    assert_eq!(tally.runs_invisible_on_background, 1);
}

#[test]
fn a_deck_numbers_its_slides_and_keeps_those_that_cannot_be_read() {
    let slide = SlideInput {
        background: Some(Background { fill: ResolvedFill::Solid(RED), declared_none: false }),
        inherited: vec![],
        shapes: vec![],
        reading: vec![ReadShape { shape: text_body("hi"), inherited: false, figure: false }],
        declines_master: false,
        declines_layout: false,
    };
    let deck = layout_deck(vec![None, Some(slide)], size(720.0, 540.0));
    assert_eq!(deck.pages.len(), 2);
    assert_eq!((deck.pages[0].page_number, deck.pages[1].page_number), (1, 2));
    assert!(deck.pages[0].text_items.is_empty());
    assert_eq!(deck.pages[1].text_items[0].text, "hi");
    assert_eq!(deck.background_commands, vec![None, Some(0)]);
    assert_eq!(deck.layouts[1].page_size, size(720.0, 540.0));
    // The text is bracketed behind the background, and its note says where.
    let note = &deck.placements[1][0];
    assert_eq!((note.first_item, note.end_item, note.bracket), (0, 1, 1));
    assert!(matches!(
        &deck.layouts[1].commands[note.bracket],
        DrawCommand::Transform(TransformMark::Begin(t))
            if t.extent.width == note.rect.width && t.extent.height == note.rect.height
    ));
}

fn run_font(family: Option<&str>, size: Option<f64>) -> RunFont {
    RunFont {
        family: family.map(|f| f.into()),
        size: size.map(pt),
        bold: family.is_some(),
        italic: false,
    }
}

fn text_style(size: Option<f64>) -> ResolvedTextStyle {
    ResolvedTextStyle {
        font_size: size.map(pt),
        alignment: None,
        space_before: Some(Spacing::Percent(50_000)),
        space_after: None,
        line_spacing: None,
        margin_left: Some(pt(9.0)),
        margin_right: None,
        indent: Some(pt(-9.0)),
        default_tab_size: None,
    }
}

const UNSHRUNK: ShapeAutoFit = ShapeAutoFit {
    font_scale: 100_000,
    line_reduction: 0,
};

#[test]
fn runs_become_fragments_in_order() {
    let mut fragments = vec![];
    let mut colors = vec![];
    let context = RunContext {
        style: text_style(Some(20.0)),
        default_family: "Arial",
        auto_fit: ShapeAutoFit {
            font_scale: 50_000,
            line_reduction: 0,
        },
    };
    collect_run_fragments(
        vec![
            Inline::TextRun {
                content: vec![RunElement::Text("a".into()), RunElement::Tab, RunElement::LineBreak],
                font: run_font(Some("Lato"), Some(12.0)),
                color: Some(0xff0000),
            },
            Inline::Hyperlink(vec![Inline::TextRun {
                content: vec![RunElement::Text("b".into())],
                font: run_font(None, None),
                color: None,
            }]),
            Inline::Other,
        ],
        &context,
        &mut fragments,
        &mut colors,
    );
    assert_eq!(fragments.len(), 4);
    assert_eq!(colors, vec![Some(0xff0000), None]);
    match &fragments[0] {
        Fragment::Text { text, font, color } => {
            assert_eq!(text, "a");
            assert_eq!((font.family.as_str(), font.size), ("Lato", pt(6.0)));
            assert!(font.bold && !font.italic);
            assert_eq!((color.r, color.g, color.b), (255, 0, 0));
        }
        other => panic!("{other:?}"),
    }
    assert!(matches!(&fragments[1], Fragment::Tab { line_height, .. } if *line_height == pt(6.0)));
    assert!(matches!(&fragments[2], Fragment::LineBreak { line_height } if *line_height == pt(6.0)));
    match &fragments[3] {
        Fragment::Text { text, font, color } => {
            assert_eq!(text, "b");
            assert_eq!((font.family.as_str(), font.size), ("Arial", pt(10.0)));
            assert_eq!((color.r, color.g, color.b), (0, 0, 0));
        }
        other => panic!("{other:?}"),
    }
}

#[test]
fn a_paragraph_is_set_in_its_own_style() {
    let s = paragraph_style(&text_style(None), UNSHRUNK);
    assert_eq!(s.alignment, Alignment::Start);
    // Half of the eighteen points that stand for a missing size.
    assert_eq!((s.space_before, s.space_after), (pt(9.0), pt(0.0)));
    assert_eq!((s.indent_left, s.indent_right), (pt(9.0), pt(0.0)));
    assert_eq!(s.indent_first_line, pt(-9.0));
    assert_eq!(s.line_spacing, LineSpacingRule::Auto(100_000));
    assert_eq!(s.default_tab_stop, pt(36.0));
    let mut tight = text_style(Some(20.0));
    tight.line_spacing = Some(Spacing::Points(1_250));
    tight.space_after = Some(Spacing::Points(600));
    let s = paragraph_style(&tight, UNSHRUNK);
    assert_eq!(s.line_spacing, LineSpacingRule::AtLeast(pt(12.5)));
    assert_eq!((s.space_before, s.space_after), (pt(10.0), pt(6.0)));
}

#[test]
fn a_body_has_one_block_per_paragraph() {
    let paragraph = |text: &str, size: Option<f64>, color: Option<u32>| BodyParagraph {
        content: vec![Inline::TextRun {
            content: vec![RunElement::Text(text.into())],
            font: run_font(None, None),
            color,
        }],
        style: text_style(size),
    };
    let (blocks, colors) = body_blocks(
        vec![
            paragraph("one", Some(10.0), Some(1)),
            BodyParagraph {
                content: vec![],
                style: text_style(None),
            },
            paragraph("two", None, None),
        ],
        "Arial",
        UNSHRUNK,
    );
    assert_eq!(colors, vec![Some(1), None]);
    assert_eq!(blocks.len(), 3);
    assert!(blocks.iter().all(|b| !b.page_break_before));
    assert_eq!(blocks[0].style.space_before, pt(5.0));
    assert!(blocks[1].fragments.is_empty());
    assert!(
        matches!(&blocks[2].fragments[0], Fragment::Text { text, font, .. }
            if text == "two" && font.size == pt(18.0))
    );
}

#[test]
fn an_upright_direction_turns_nothing() {
    assert_eq!(direction(0).cos, ONE);
    assert_eq!((direction(180).sin, direction(180).cos), (0, -ONE));
}
