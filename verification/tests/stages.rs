use liteparse::blocks::Block;
use liteparse::config::{CropBox, ImageMode};
use liteparse::geometry::Rect;
use liteparse::stages::{
    apply_content_filters, attach_layout, canonicalize_image_refs, document_signals,
    drop_bare_rules, extract_blocks, format_markdown_pages, lay_out_blocks, merge_ocr,
    outline_of_page, project,
    render_page_markdown, BlockOptions, ContentFilters, DocumentSignals, ExtractRequest, GridText,
    MarkdownTools, OcrResult, PageOcrOutcome, PositionedBlock,
};
use liteparse::types::{
    LayoutBlock, LayoutComplexityStats, OutlineTarget, Page, PageComplexityStats, PageExtras,
    ParsedPage, TextItem,
};
use liteparse::units::{Angle, Pt};
use std::collections::HashSet;

fn pt(x: f64) -> Pt {
    Pt::from_emu((x * 12700.0).round() as i64)
}

fn item(text: &str, x: f64, y: f64, units: i64) -> TextItem {
    TextItem {
        text: text.into(),
        x: pt(x),
        y: pt(y),
        width: pt(10.0),
        height: pt(10.0),
        rotation: Angle { units },
        ..Default::default()
    }
}

fn page(number: usize, items: Vec<TextItem>) -> Page {
    Page {
        page_number: number,
        page_width: pt(100.0),
        page_height: pt(200.0),
        content_bounds: None,
        text_items: items,
        annotations: None,
        extras: PageExtras::default(),
    }
}

fn texts(p: &Page) -> Vec<&str> {
    p.text_items.iter().map(|i| i.text.as_str()).collect()
}

#[test]
fn a_request_asks_for_everything_and_nothing_besides() {
    let r: ExtractRequest<u8> = ExtractRequest::default();
    assert!(r.target_pages.is_none() && r.glyph_resolver.is_none() && !r.extract_links);
    assert_eq!(r.max_pages, usize::MAX);
    assert!(!r.output.extract_images && !r.output.emit_word_boxes);
}

#[test]
fn a_crop_keeps_what_lies_entirely_inside() {
    let crop = CropBox { top: 50_000, bottom: 50_000, left: 0, right: 100_000 };
    let mut pages = vec![page(
        1,
        vec![
            item("in", 0.0, 10.0, 0),
            item("top", 0.0, 9.99, 0),
            item("low", 0.0, 180.0, 0),
            item("lower", 0.0, 180.01, 0),
            item("right", 80.0, 50.0, 0),
            item("out", 80.01, 50.0, 0),
        ],
    )];
    apply_content_filters(
        &mut pages,
        &ContentFilters { crop_box: Some(&crop), skip_diagonal_text: false },
    );
    assert_eq!(texts(&pages[0]), vec!["in", "low", "right"]);
}

#[test]
fn skewed_text_goes_where_it_is_not_wanted() {
    let make = || {
        vec![page(
            1,
            vec![
                item("flat", 0.0, 0.0, 0),
                item("stamp", 0.0, 0.0, 2_700_000),
                item("up", 0.0, 0.0, -5_400_000),
            ],
        )]
    };
    let mut pages = make();
    apply_content_filters(
        &mut pages,
        &ContentFilters { crop_box: None, skip_diagonal_text: true },
    );
    assert_eq!(texts(&pages[0]), vec!["flat", "up"]);
    // A second time nothing more goes.
    apply_content_filters(
        &mut pages,
        &ContentFilters { crop_box: None, skip_diagonal_text: true },
    );
    assert_eq!(texts(&pages[0]), vec!["flat", "up"]);
    let mut untouched = make();
    apply_content_filters(&mut untouched, &ContentFilters::default());
    assert_eq!(untouched[0].text_items.len(), 3);
}

fn read(text: &str, artifact: bool) -> OcrResult {
    OcrResult {
        text: text.into(),
        bbox: Rect { x: pt(1.0), y: pt(2.0), width: pt(3.0), height: pt(4.0) },
        artifact,
    }
}

#[test]
fn read_text_is_added_and_noise_is_not() {
    let mut pages = vec![
        page(1, vec![item("own", 0.0, 0.0, 0)]),
        page(2, vec![item("bad", 0.0, 0.0, 0)]),
        page(3, vec![item("kept", 0.0, 0.0, 0)]),
    ];
    let outcomes = vec![
        PageOcrOutcome {
            page_number: 1,
            native_usable: true,
            results: Ok(vec![read("seen", false), read("|", true)]),
        },
        PageOcrOutcome { page_number: 2, native_usable: false, results: Ok(vec![read("new", false)]) },
        PageOcrOutcome { page_number: 3, native_usable: false, results: Err("down".into()) },
    ];
    merge_ocr(&mut pages, outcomes, true).unwrap();
    assert_eq!(texts(&pages[0]), vec!["own", "seen"]);
    assert_eq!(texts(&pages[1]), vec!["new"]);
    assert_eq!(texts(&pages[2]), vec!["kept"]);
    assert_eq!(pages[0].text_items[1].font_name.as_deref(), Some("OCR"));
    assert_eq!(pages[0].text_items[1].height, pt(4.0));
}

#[test]
fn reading_fails_only_where_nothing_was_read_and_text_is_missing() {
    let failed = |usable: bool| {
        vec![PageOcrOutcome {
            page_number: 1,
            native_usable: usable,
            results: Err("down".into()),
        }]
    };
    let mut pages = vec![page(1, vec![item("own", 0.0, 0.0, 0)])];
    assert!(merge_ocr(&mut pages, failed(false), true).is_err());
    assert!(merge_ocr(&mut pages, failed(true), true).is_ok());
    assert!(merge_ocr(&mut pages, failed(false), false).is_ok());
    assert!(merge_ocr(&mut pages, vec![], true).is_ok());
    assert_eq!(texts(&pages[0]), vec!["own"]);
}

fn grid(p: &Page) -> GridText {
    GridText {
        text: format!("page {}", p.page_number),
        lines: vec!["l".into()],
        regions: vec![p.page_number],
        figures: vec![],
    }
}

#[test]
fn pages_are_projected_one_by_one() {
    let both = project(vec![page(1, vec![]), page(2, vec![item("x", 0.0, 0.0, 0)])], &grid);
    let second = project(vec![page(2, vec![item("x", 0.0, 0.0, 0)])], &grid);
    assert_eq!(both[1].text, second[0].text);
    assert_eq!(both[1].text, "page 2");
    assert_eq!(both[1].text_items.len(), 1);
    assert_eq!(both[0].projected_lines, vec!["l".to_string()]);
}

fn parsed(number: usize, text: &str, lines: usize) -> ParsedPage {
    ParsedPage {
        page_number: number,
        page_width: pt(100.0),
        page_height: pt(200.0),
        content_bounds: None,
        text: text.into(),
        markdown: String::new(),
        text_items: vec![],
        projected_lines: vec![String::new(); lines],
        regions: vec![],
        figures: vec![],
        complexity: None,
        blocks: None,
        annotations: None,
        extras: PageExtras::default(),
    }
}

#[test]
fn layout_is_added_for_as_many_pages_as_there_are() {
    let mut stats = vec![
        PageComplexityStats { page_number: 1, needs_ocr: true, layout: None },
        PageComplexityStats { page_number: 2, needs_ocr: false, layout: None },
    ];
    let measure = |p: &ParsedPage| LayoutComplexityStats {
        columns: p.page_number,
        tables: 0,
        is_complex: false,
    };
    attach_layout(&mut stats, &vec![parsed(7, "", 0)], &measure);
    assert_eq!(stats[0].layout.unwrap().columns, 7);
    assert!(stats[0].needs_ocr);
    assert!(stats[1].layout.is_none());
}

fn signals() -> DocumentSignals {
    DocumentSignals { body_size: pt(10.0), heading_map: vec![], header_footer: HashSet::new() }
}

#[test]
fn a_document_without_pages_says_nothing() {
    let size = |_: &Vec<ParsedPage>| pt(11.0);
    let map = |_: &Vec<ParsedPage>, s: Pt| vec![(s, 1u8)];
    let chrome = |_: &Vec<ParsedPage>| HashSet::from(["footer".to_string()]);
    let none = document_signals(&vec![], false, &size, &map, &chrome);
    assert_eq!(none.body_size, pt(0.0));
    assert!(none.heading_map.is_empty() && none.header_footer.is_empty());
    let some = document_signals(&vec![parsed(1, "", 1)], false, &size, &map, &chrome);
    assert_eq!(some.heading_map, vec![(pt(11.0), 1)]);
    assert_eq!(some.header_footer, HashSet::from(["footer".to_string()]));
    let kept = document_signals(&vec![parsed(1, "", 1)], true, &size, &map, &chrome);
    assert!(kept.header_footer.is_empty());
    assert_eq!((kept.body_size, &kept.heading_map), (some.body_size, &some.heading_map));
}

fn target(page_index: i32) -> OutlineTarget {
    OutlineTarget { level: 1, title: format!("t{page_index}"), page_index, y_pdf: None }
}

fn block(b: Block) -> PositionedBlock {
    PositionedBlock { block: b, bbox: None }
}

#[test]
fn a_page_sees_its_own_outline_entries() {
    let found = outline_of_page(&vec![target(0), target(1), target(0)], 1);
    assert_eq!(found.len(), 2);
    assert!(found.iter().all(|t| t.title == "t0"));
}

#[test]
fn a_page_of_nothing_but_rules_shows_none() {
    let figure = || block(Block::Figure { id: "a".into(), format: "png".into() });
    let bare = drop_bare_rules(vec![block(Block::HorizontalRule), figure()]);
    assert_eq!(bare.len(), 1);
    let full = drop_bare_rules(vec![
        block(Block::HorizontalRule),
        block(Block::Paragraph { text: "x".into() }),
    ]);
    assert_eq!(full.len(), 2);
}

#[test]
fn a_page_is_taken_apart_with_its_outline_and_chrome() {
    let outline = vec![target(0), target(1)];
    let detect = |_: &ParsedPage, _: Pt| HashSet::from([3usize, 4]);
    let classify = |_: &ParsedPage,
                    _: &DocumentSignals,
                    o: &Vec<OutlineTarget>,
                    m: ImageMode,
                    c: &HashSet<usize>| {
        assert_eq!(m, ImageMode::Off);
        vec![
            block(Block::HorizontalRule),
            block(Block::Paragraph { text: format!("{} {}", o[0].title, c.len()) }),
        ]
    };
    let tidy = |b: Vec<PositionedBlock>| b;
    let options = |keep: bool| BlockOptions {
        outline: &outline,
        image_mode: ImageMode::Off,
        keep_headers_footers: keep,
    };
    let page = parsed(2, "", 1);
    let out = extract_blocks(&page, &signals(), &options(false), &detect, &classify, &tidy).unwrap();
    assert_eq!(out[1].block, Block::Paragraph { text: "t1 2".into() });
    let kept = extract_blocks(&page, &signals(), &options(true), &detect, &classify, &tidy).unwrap();
    assert_eq!(kept[1].block, Block::Paragraph { text: "t1 0".into() });
    let blank = parsed(2, "", 0);
    assert!(extract_blocks(&blank, &signals(), &options(false), &detect, &classify, &tidy).is_none());
}

#[test]
fn outline_entries_of_other_pages_do_not_matter() {
    let detect = |_: &ParsedPage, _: Pt| HashSet::new();
    let classify = |_: &ParsedPage,
                    _: &DocumentSignals,
                    o: &Vec<OutlineTarget>,
                    _: ImageMode,
                    _: &HashSet<usize>| {
        o.iter().map(|t| block(Block::Paragraph { text: t.title.clone() })).collect::<Vec<_>>()
    };
    let tidy = |b: Vec<PositionedBlock>| b;
    let page = parsed(2, "", 1);
    let whole = vec![target(0), target(1), target(2)];
    let own = outline_of_page(&whole, 2);
    let blocks = |outline: &Vec<OutlineTarget>| {
        let options = BlockOptions {
            outline,
            image_mode: ImageMode::Placeholder,
            keep_headers_footers: true,
        };
        let out = extract_blocks(&page, &signals(), &options, &detect, &classify, &tidy).unwrap();
        out.into_iter().map(|b| b.block).collect::<Vec<Block>>()
    };
    assert_eq!(blocks(&whole), vec![Block::Paragraph { text: "t1".into() }]);
    assert_eq!(blocks(&whole), blocks(&own));
}

#[test]
fn markdown_is_made_by_the_open_steps() {
    let tools = MarkdownTools {
        body_size: |p: &Vec<ParsedPage>| pt(p.len() as f64),
        heading_map: |_: &Vec<ParsedPage>, s: Pt| vec![(s, 1u8)],
        running_texts: |_: &Vec<ParsedPage>| HashSet::from(["footer".to_string()]),
        detect: |_: &ParsedPage, _: Pt| HashSet::from([0usize]),
        classify: |p: &ParsedPage,
                   s: &DocumentSignals,
                   o: &Vec<OutlineTarget>,
                   m: ImageMode,
                   c: &HashSet<usize>| {
            vec![
                block(Block::HorizontalRule),
                block(Block::Paragraph {
                    text: format!(
                        "{} {:?} {} {m:?} {}",
                        p.text,
                        s.body_size == pt(2.0),
                        o.len(),
                        c.len() + s.header_footer.len()
                    ),
                }),
            ]
        },
        tidy: |b: Vec<PositionedBlock>| b,
        render: |b: &Vec<PositionedBlock>| format!("{:?}", b[1].block),
    };
    let outline = vec![target(0), target(1), target(0)];
    let pages = vec![parsed(1, "one", 1), parsed(2, "two", 0)];
    for keep in [false, true] {
        let options = BlockOptions {
            outline: &outline,
            image_mode: ImageMode::Embed,
            keep_headers_footers: keep,
        };
        let out = format_markdown_pages(&pages, &options, &tools);
        let signals = document_signals(
            &pages,
            keep,
            &tools.body_size,
            &tools.heading_map,
            &tools.running_texts,
        );
        let by_hand: Vec<String> = pages
            .iter()
            .map(|p| {
                let blocks = extract_blocks(
                    p,
                    &signals,
                    &options,
                    &tools.detect,
                    &tools.classify,
                    &tools.tidy,
                );
                render_page_markdown(p, &blocks, &tools.render)
            })
            .collect();
        assert_eq!(out, by_hand);
        let counted = if keep { 0 } else { 2 };
        assert_eq!(
            out[0],
            format!("{:?}", Block::Paragraph { text: format!("one true 2 Embed {counted}") })
        );
        assert_eq!(out[1], "```text\ntwo\n```");

        let place = |p: &ParsedPage, b: &Vec<PositionedBlock>| {
            let mut laid = vec![LayoutBlock {
                block: Block::Paragraph { text: format!("{} of {}", b.len(), p.text) },
                bbox: None,
            }];
            laid.extend(b.iter().map(|b| LayoutBlock { block: b.block.clone(), bbox: b.bbox }));
            laid
        };
        let laid = lay_out_blocks(&pages, &options, &tools, &place);
        assert_eq!(laid[0].len(), 3);
        assert_eq!(laid[0][1].block, Block::HorizontalRule);
        assert_eq!(laid[1].len(), 1);
        assert_eq!(laid[1][0].block, Block::Paragraph { text: "0 of two".into() });
    }
}

#[test]
fn a_page_without_structure_is_fenced() {
    let render = |b: &Vec<PositionedBlock>| format!("{} blocks", b.len());
    assert_eq!(
        render_page_markdown(&parsed(1, "raw", 0), &None, &render),
        "```text\nraw\n```"
    );
    assert_eq!(
        render_page_markdown(&parsed(1, "raw\n", 0), &None, &render),
        "```text\nraw\n```"
    );
    assert_eq!(
        render_page_markdown(&parsed(1, "", 0), &None, &render),
        "```text\n\n```"
    );
    let some = Some(vec![block(Block::HorizontalRule)]);
    assert_eq!(render_page_markdown(&parsed(1, "raw", 0), &some, &render), "1 blocks");
}

#[test]
fn references_stay_without_images() {
    let mut pages = vec![parsed(1, "", 0)];
    pages[0].markdown = "![](img_p1_1.png)".into();
    let mut text = "t".to_string();
    canonicalize_image_refs(&mut pages, &mut text, &vec![]);
    assert_eq!(pages[0].markdown, "![](img_p1_1.png)");
    assert_eq!(text, "t");
}
