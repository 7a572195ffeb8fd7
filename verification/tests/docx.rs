use liteparse::blocks::Block;
use liteparse::columns::{column_counts_from_sections, page_column_counts, SectionColumns};
use liteparse::docx_images::{collect_images, image_entry, image_rects_per_page};
use liteparse::docx_layout::{layout_to_pages, union_bounds, NativeLayout, RunMetrics};
use liteparse::draw_command::{
    DrawCommand, ImageFormat, LayoutedPage, MediaEntry, OutlineHeading, OutlineMark, RgbColor,
};
use liteparse::geometry::{PtOffset, PtRect, PtSize, Rect};
use liteparse::types::TextItem;
use liteparse::units::Pt;
use std::collections::HashMap;

fn pt(x: f64) -> Pt {
    Pt::from_emu((x * 12700.0).round() as i64)
}

fn text_cmd(x: f64, y: f64, text: &str, size: f64) -> DrawCommand {
    DrawCommand::Text {
        position: PtOffset::new(pt(x), pt(y)),
        text: text.into(),
        font_family: "Arial".into(),
        char_spacing: Pt::zero(),
        font_size: pt(size),
        bold: false,
        italic: false,
        color: RgbColor { r: 0, g: 0, b: 0 },
        text_scale: 1000,
    }
}

fn page(commands: Vec<DrawCommand>) -> LayoutedPage {
    let mut p = LayoutedPage::new(PtSize::new(pt(612.0), pt(792.0)));
    p.commands = commands;
    p
}

/// Every character advances six points; eleven points above the baseline, three
/// below it.
fn measure(text: &str) -> RunMetrics {
    let n = text.chars().count();
    RunMetrics {
        advance: pt(6.0 * n as f64),
        ascent: pt(11.0),
        descent: pt(3.0),
        prefix: (0..=n).map(|k| pt(6.0 * k as f64)).collect(),
    }
}

fn lay_out(pages: Vec<LayoutedPage>, words: bool, annotations: bool) -> NativeLayout {
    let runs: Vec<Vec<RunMetrics>> = pages
        .iter()
        .map(|p| {
            p.commands
                .iter()
                .map(|c| match c {
                    DrawCommand::Text { text, .. } => measure(text),
                    _ => measure(""),
                })
                .collect()
        })
        .collect();
    layout_to_pages(&pages, &runs, words, annotations)
}

#[test]
fn text_bbox_hangs_from_the_baseline_by_ascent() {
    let metrics = measure("Hello");
    let out = lay_out(
        vec![page(vec![text_cmd(72.0, 100.0, "Hello", 12.0)])],
        true,
        false,
    );
    let item = &out.pages[0].text_items[0];
    assert_eq!(item.x, pt(72.0));
    assert_eq!(item.y, pt(100.0).minus(metrics.ascent));
    assert_eq!(item.width, metrics.advance);
    assert_eq!(item.height, metrics.ascent.plus(metrics.descent));
    assert_eq!(item.font_descent, Some(Pt::zero().minus(metrics.descent)));
    assert_eq!(out.pages[0].page_number, 1);
    // Word boxes partition the advance: two words, gap between them.
    let out2 = lay_out(
        vec![page(vec![text_cmd(0.0, 100.0, "ab cd", 12.0)])],
        true,
        false,
    );
    let words = &out2.pages[0].text_items[0].words;
    assert_eq!(words.len(), 2);
    assert_eq!(words[0].x, pt(0.0));
    assert!(
        words[1].x.raw() > words[0].x.plus(words[0].width).raw(),
        "gap for the space"
    );
    assert_eq!((words[0].text.as_str(), words[1].text.as_str()), ("ab", "cd"));
}

#[test]
fn links_attach_to_covered_items_only() {
    let m = measure("click");
    let link_rect = PtRect::from_xywh(
        pt(72.0),
        pt(100.0).minus(m.ascent),
        m.advance,
        m.ascent.plus(m.descent),
    );
    let out = lay_out(
        vec![page(vec![
            text_cmd(72.0, 100.0, "click", 12.0),
            text_cmd(72.0, 300.0, "plain", 12.0),
            DrawCommand::LinkAnnotation {
                rect: link_rect,
                url: "https://example.com".into(),
                target: 1,
            },
        ])],
        false,
        false,
    );
    let items = &out.pages[0].text_items;
    assert_eq!(items[0].link.as_deref(), Some("https://example.com"));
    assert_eq!(items[1].link, None);
}

#[test]
fn outline_marks_become_targets_with_pdf_space_y() {
    let ascent = measure("Title").ascent;
    let out = lay_out(
        vec![page(vec![
            DrawCommand::Outline(OutlineMark::Begin(OutlineHeading {
                node_id: 1,
                level: 2,
                title: "Title".into(),
            })),
            text_cmd(72.0, 100.0, "Title", 12.0),
            DrawCommand::Outline(OutlineMark::End),
        ])],
        false,
        false,
    );
    assert_eq!(out.outline.len(), 1);
    let t = &out.outline[0];
    assert_eq!((t.level, t.page_index), (2, 0));
    assert_eq!(t.title, "Title");
    assert_eq!(t.y_pdf, Some(pt(792.0).minus(pt(100.0).minus(ascent))));
}

#[test]
fn block_starts_become_a_min_page_map() {
    let mut p0 = page(vec![]);
    p0.block_starts = vec![3, 4];
    let mut p1 = page(vec![]);
    p1.block_starts = vec![4, 5];
    let out = lay_out(vec![p0, p1], false, false);
    assert_eq!(out.block_pages[&3], 0);
    assert_eq!(out.block_pages[&4], 0, "duplicate takes the earliest page");
    assert_eq!(out.block_pages[&5], 1);
}

fn link_rect(x: f64, y: f64, w: f64, h: f64) -> PtRect {
    PtRect::from_xywh(pt(x), pt(y), pt(w), pt(h))
}

fn link(rect: PtRect, target: usize) -> DrawCommand {
    DrawCommand::LinkAnnotation {
        rect,
        url: "https://example.com".into(),
        target,
    }
}

#[test]
fn multi_line_hyperlink_merges_to_one_annotation() {
    let out = lay_out(
        vec![page(vec![
            link(link_rect(72.0, 100.0, 30.0, 14.0), 1),
            link(link_rect(105.0, 100.0, 40.0, 14.0), 1),
            link(link_rect(72.0, 114.0, 25.0, 14.0), 1),
        ])],
        false,
        true,
    );
    let anns = out.pages[0].annotations.as_ref().unwrap();
    assert_eq!(anns.len(), 1);
    let a = &anns[0];
    assert_eq!(a.subtype, "link");
    assert_eq!(a.uri.as_deref(), Some("https://example.com"));
    let r = a.rect.unwrap();
    assert_eq!((r.x, r.y), (pt(72.0), pt(100.0)));
    assert_eq!((r.width, r.height), (pt(73.0), pt(28.0)));
    assert_eq!(a.quadpoint_rects.len(), 2, "one merged rect per line");
    assert_eq!(a.quadpoint_rects[0].width, pt(73.0));
    assert_eq!(a.quadpoint_rects[1].width, pt(25.0));
}

#[test]
fn distinct_hyperlink_instances_stay_separate_annotations() {
    let out = lay_out(
        vec![page(vec![
            link(link_rect(72.0, 100.0, 30.0, 14.0), 1),
            link(link_rect(200.0, 100.0, 30.0, 14.0), 2),
        ])],
        false,
        true,
    );
    let anns = out.pages[0].annotations.as_ref().unwrap();
    assert_eq!(anns.len(), 2);
    assert!(anns.iter().all(|a| a.quadpoint_rects.is_empty()));
}

#[test]
fn internal_links_become_uriless_annotations() {
    let out = lay_out(
        vec![page(vec![
            text_cmd(72.0, 100.0, "See chapter 3", 12.0),
            DrawCommand::InternalLink {
                rect: link_rect(72.0, 88.0, 80.0, 14.0),
                destination: "_Toc123".into(),
                target: 1,
            },
        ])],
        false,
        true,
    );
    let anns = out.pages[0].annotations.as_ref().unwrap();
    assert_eq!(anns.len(), 1);
    assert_eq!(anns[0].subtype, "link");
    assert_eq!(anns[0].uri, None);
    assert_eq!(
        out.pages[0].text_items[0].link, None,
        "internal anchors must not become TextItem links"
    );
}

#[test]
fn column_counts_join_sections_to_pages() {
    // Section 0: 3 blocks, 2 columns. Section 1: 2 blocks, 1 column.
    let sections = vec![(3usize, 2usize), (2, 1)];
    let block_pages: HashMap<usize, usize> =
        [(0, 0), (2, 1), (3, 1), (4, 2)].into_iter().collect();
    assert_eq!(
        column_counts_from_sections(&sections, &block_pages, 5),
        vec![2, 2, 1, 1, 1],
        "page 1 mixes both sections (max), pages 3-4 inherit"
    );

    // No block anchored before page 1: leading page falls back to 1.
    let late: HashMap<usize, usize> = [(0, 1)].into_iter().collect();
    assert_eq!(
        column_counts_from_sections(&sections, &late, 3),
        vec![1, 2, 2]
    );
}

#[test]
fn a_section_without_columns_has_one() {
    let sections = vec![
        SectionColumns { blocks: 1, count: None },
        SectionColumns { blocks: 1, count: Some(0) },
        SectionColumns { blocks: 1, count: Some(3) },
    ];
    let pages: HashMap<usize, usize> = [(0, 0), (1, 1), (2, 2)].into_iter().collect();
    assert_eq!(page_column_counts(&sections, &pages, 3), vec![1, 1, 3]);
}

#[test]
fn annotations_none_when_disabled_some_empty_when_enabled() {
    let cmds = || vec![text_cmd(72.0, 100.0, "plain", 12.0)];
    let off = lay_out(vec![page(cmds())], false, false);
    assert!(off.pages[0].annotations.is_none());
    let on = lay_out(vec![page(cmds())], false, true);
    assert!(on.pages[0]
        .annotations
        .as_ref()
        .is_some_and(|v| v.is_empty()));
}

#[test]
fn union_bounds_spans_every_item() {
    let item = |x: f64, y: f64, w: f64, h: f64| TextItem {
        x: pt(x),
        y: pt(y),
        width: pt(w),
        height: pt(h),
        ..TextItem::default()
    };
    assert!(union_bounds(&vec![]).is_none());
    let r = union_bounds(&vec![item(10.0, 20.0, 5.0, 5.0), item(3.0, 40.0, 2.0, 2.0)]).unwrap();
    assert_eq!((r.x, r.y), (pt(3.0), pt(20.0)));
    assert_eq!((r.width, r.height), (pt(12.0), pt(22.0)));
}

/// A two-by-one red picture.
fn png(width: u32, height: u32, color: [u8; 4]) -> Vec<u8> {
    let mut out = std::io::Cursor::new(Vec::new());
    image::RgbaImage::from_pixel(width, height, image::Rgba(color))
        .write_to(&mut out, image::ImageFormat::Png)
        .expect("encode");
    out.into_inner()
}

fn placed(media: usize, data: Vec<u8>, format: ImageFormat) -> DrawCommand {
    DrawCommand::Image {
        rect: link_rect(1.0, 2.0, 3.0, 4.0),
        image_data: MediaEntry { media, data, format },
        src_rect: None,
        float: false,
    }
}

#[test]
fn images_are_numbered_per_page_and_duplicates_point_at_the_original() {
    let red = png(2, 1, [255, 0, 0, 255]);
    let blue = png(3, 5, [0, 0, 255, 255]);
    let pages = vec![
        page(vec![
            placed(7, red.clone(), ImageFormat::Png),
            placed(8, blue, ImageFormat::Png),
        ]),
        page(vec![placed(7, red, ImageFormat::Png)]),
    ];
    let found = collect_images(&pages);
    let ids: Vec<&str> = found.images.iter().map(|i| i.id.as_str()).collect();
    assert_eq!(ids, vec!["p1_1", "p1_2", "p2_1"]);
    assert_eq!(found.images[0].name, "img_p1_1.png");
    assert_eq!((found.images[0].width, found.images[0].height), (2, 1));
    assert_eq!((found.images[1].width, found.images[1].height), (3, 5));
    assert_eq!(found.images[0].duplicate_of, None);
    assert_eq!(found.images[1].duplicate_of, None);
    assert_eq!(found.images[2].duplicate_of.as_deref(), Some("p1_1"));
    let queue: Vec<&str> = found.figure_ids[&7].iter().map(|(id, _)| id.as_str()).collect();
    assert_eq!(queue, vec!["p1_1", "p2_1"]);
    let rects = image_rects_per_page(&pages);
    assert_eq!((rects[0].len(), rects[1].len()), (2, 1));
    assert_eq!(rects[1][0].height, pt(4.0));
}

#[test]
fn an_image_of_unknown_size_has_none() {
    let bbox = Rect { x: pt(0.0), y: pt(0.0), width: pt(1.0), height: pt(1.0) };
    let unread = image_entry(2, 3, "png", bbox, &vec![1, 2, 3], None, None);
    assert_eq!((unread.width, unread.height), (0, 0));
    assert_eq!(unread.id, "p2_3");
    let read = image_entry(2, 3, "jpg", bbox, &vec![], Some((9, 8)), Some("p1_1".into()));
    assert_eq!((read.width, read.height), (9, 8));
    assert_eq!(read.duplicate_of.as_deref(), Some("p1_1"));
    // A blob that is no picture keeps its place without a size.
    let pages = vec![page(vec![placed(1, vec![1, 2, 3], ImageFormat::Png)])];
    let found = collect_images(&pages);
    assert_eq!((found.images[0].width, found.images[0].height), (0, 0));
}

#[test]
fn a_page_keeps_its_header_and_footer_blocks() {
    let mut p = page(vec![]);
    p.header_blocks.push(Block::HorizontalRule);
    assert_eq!(p.header_blocks.len(), 1);
    assert!(p.footer_blocks.is_empty());
}

#[test]
fn options_change_only_what_they_are_for() {
    let area = || PtRect {
        origin: PtOffset::new(pt(70.0), pt(88.0)),
        size: PtSize::new(pt(40.0), pt(14.0)),
    };
    let pages = || {
        vec![page(vec![
            text_cmd(72.0, 100.0, "two words", 12.0),
            DrawCommand::InternalLink { rect: area(), destination: "d".into(), target: 0 },
        ])]
    };
    let bare = lay_out(pages(), false, false);
    for (words, annotations) in [(false, true), (true, false), (true, true)] {
        let other = lay_out(pages(), words, annotations);
        let (a, b) = (&bare.pages[0], &other.pages[0]);
        assert_eq!(a.content_bounds, b.content_bounds);
        assert_eq!(a.text_items[0].text, b.text_items[0].text);
        assert_eq!(a.text_items[0].bounds(), b.text_items[0].bounds());
        assert_eq!(a.text_items[0].link, b.text_items[0].link);
        assert_eq!(b.annotations.is_some(), annotations);
        assert_eq!(bare.block_pages, other.block_pages);
        let boxes = &b.text_items[0].words;
        assert_eq!(boxes.len(), if words { 2 } else { 0 });
        assert!(boxes
            .iter()
            .all(|w| w.y == b.text_items[0].y && w.height == b.text_items[0].height));
        // A link inside the document has no address.
        assert_eq!(b.text_items[0].link, None);
        assert!(b.annotations.iter().flatten().all(|n| n.uri.is_none()));
        assert_eq!(b.annotations.as_ref().map_or(1, Vec::len), 1);
    }
}
