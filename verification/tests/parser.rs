use liteparse::blocks::{
    count_tables, pptx_slide_outline, split_blocks_by_page, split_pptx_blocks_by_page, Block,
    BlockSource, SlideSource,
};
use liteparse::config::{CropBox, Header, ImageMode, LiteParseConfig, OutputFormat};
use liteparse::docx_layout::NativeLayout;
use liteparse::geometry::Rect;
use liteparse::images::{assign_image_paths, plan_image_files, rewrite_duplicate_image_refs};
use liteparse::native::{
    add_headers_footers, is_text_sparse, native_page_text, parse_docx_native, parse_pptx_native,
    parse_xlsx_native, select_native_pages, xlsx_parts, DocxInput,
};
use liteparse::parser::{Extracted, LiteParse, LiteParseError, OcrChoice, OcrHost};
use liteparse::stages::{
    apply_content_filters, attach_complexity, canonicalize_image_refs, merge_ocr, project, GridText,
    OcrResult, PageOcrOutcome,
};
use liteparse::types::{
    ExtractedImage, LayoutBlock, LayoutComplexityStats, OutlineTarget, Page, PageComplexityStats,
    PageError, PageExtras, ParsedPage, TextItem,
};
use liteparse::units::{Angle, Pt};
use std::collections::HashMap;

fn pt(x: f64) -> Pt {
    Pt::from_emu((x * 12700.0).round() as i64)
}

fn page_with_text_metadata() -> Page {
    Page {
        page_number: 1,
        page_width: pt(100.0),
        page_height: pt(100.0),
        content_bounds: None,
        text_items: vec![TextItem {
            text: "hello".into(),
            width: pt(20.0),
            height: pt(10.0),
            font_name: Some("Helvetica".into()),
            font_size: Some(pt(10.0)),
            font_height: Some(pt(10.0)),
            font_ascent: Some(pt(8.0)),
            font_descent: Some(pt(-2.0)),
            font_weight: Some(700),
            text_width: Some(pt(19.0)),
            font_is_buggy: true,
            mcid: Some(3),
            fill_color: Some("ff112233".into()),
            stroke_color: Some("ff445566".into()),
            char_codes: vec![104, 101, 108, 108, 111],
            trailing_space_generated: true,
            ..Default::default()
        }],
        annotations: None,
        extras: PageExtras::default(),
    }
}

/// Lays a page out as its texts, one per line.
fn grid(page: &Page) -> GridText {
    let lines: Vec<String> = page.text_items.iter().map(|i| i.text.clone()).collect();
    GridText { text: lines.join("\n"), lines, regions: vec![], figures: vec![] }
}

fn format(
    pages: &Vec<ParsedPage>,
    _outline: &Vec<OutlineTarget>,
    _mode: ImageMode,
    _keep: bool,
) -> Vec<String> {
    pages.iter().map(|p| format!("# {}", p.text)).collect()
}

#[test]
fn test_new_stores_config() {
    let mut cfg = LiteParseConfig::default();
    cfg.ocr_enabled = false;
    cfg.max_pages = 7;
    let lp = LiteParse::new(cfg);
    assert!(!lp.config().ocr_enabled);
    assert_eq!(lp.config().max_pages, 7);
}

#[test]
fn parse_from_pages_preserves_internal_text_metadata() {
    let result = LiteParse::new(LiteParseConfig::default()).parse_from_pages(
        vec![page_with_text_metadata()],
        vec![],
        &grid,
        &format,
    );
    let item = &result.pages[0].text_items[0];
    assert_eq!(item.font_name.as_deref(), Some("Helvetica"));
    assert_eq!(item.font_size, Some(pt(10.0)));
    assert_eq!(item.font_height, Some(pt(10.0)));
    assert_eq!(item.font_ascent, Some(pt(8.0)));
    assert_eq!(item.font_descent, Some(pt(-2.0)));
    assert_eq!(item.font_weight, Some(700));
    assert_eq!(item.text_width, Some(pt(19.0)));
    assert!(item.font_is_buggy);
    assert_eq!(item.mcid, Some(3));
    assert_eq!(item.fill_color.as_deref(), Some("ff112233"));
    assert_eq!(item.stroke_color.as_deref(), Some("ff445566"));
    assert_eq!(item.char_codes, vec![104, 101, 108, 108, 111]);
    assert!(item.trailing_space_generated);
}

#[test]
fn formatting_sees_the_options_and_pages_keep_the_rest() {
    let parser = LiteParse::new(LiteParseConfig {
        output_format: OutputFormat::Markdown,
        image_mode: ImageMode::Off,
        keep_headers_footers: true,
        ..Default::default()
    });
    let show = |pages: &Vec<ParsedPage>, o: &Vec<OutlineTarget>, m: ImageMode, k: bool| {
        pages.iter().map(|p| format!("{} {} {m:?} {k}", p.text, o.len())).collect::<Vec<_>>()
    };
    let numbered = |p: &Page| GridText {
        text: format!("p{}", p.page_number),
        lines: vec![],
        regions: vec![4],
        figures: vec![5, 6],
    };
    let mut page = page_with_text_metadata();
    page.extras.graphics = vec![7];
    page.extras.form_fields = Some(vec![8]);
    page.extras.structure_tree = Some(9);
    let r = parser.parse_from_pages(vec![page], vec![], &numbered, &show);
    assert_eq!(r.text, "p1 0 Off true");
    assert_eq!(r.pages[0].markdown, "p1 0 Off true");
    assert_eq!((&r.pages[0].regions, &r.pages[0].figures), (&vec![4], &vec![5, 6]));
    assert_eq!(r.pages[0].extras.graphics, vec![7]);
    assert_eq!(r.pages[0].extras.form_fields, Some(vec![8]));
    assert_eq!(r.pages[0].extras.structure_tree, Some(9));
}

#[test]
fn renaming_images_twice_is_renaming_them_once() {
    let images = vec![image("p1_1", "jpg", None), image("p2_1", "jpg", Some("p1_1"))];
    let mut pages = vec![parsed("![](img_p2_1.jpg)![](img_p2_1.jpg)")];
    let mut text = pages[0].markdown.clone();
    rewrite_duplicate_image_refs(&mut pages, &mut text, &images);
    assert!(!text.contains("p2_1"));
    let once = text.clone();
    rewrite_duplicate_image_refs(&mut pages, &mut text, &images);
    assert_eq!(text, once);
    // Not so where an image is renamed to one that is renamed itself.
    let chain = vec![
        image("p1_1", "jpg", None),
        image("p2_1", "jpg", Some("p1_1")),
        image("p3_1", "jpg", Some("p2_1")),
    ];
    let mut text = "![](img_p3_1.jpg)".to_string();
    rewrite_duplicate_image_refs(&mut pages, &mut text, &chain);
    assert_eq!(text, "![](img_p2_1.jpg)");
}

#[test]
fn image_extraction_is_opt_in_but_embed_mode_implies_it() {
    let default = LiteParseConfig::default();
    assert!(!default.effective_extract_images());

    let embed = LiteParseConfig {
        image_mode: ImageMode::Embed,
        ..Default::default()
    };
    assert!(embed.effective_extract_images());

    let explicit = LiteParseConfig {
        extract_images: true,
        ..Default::default()
    };
    assert!(explicit.effective_extract_images());
}

#[test]
fn image_output_dir_requires_image_extraction() {
    let parser = LiteParse::new(LiteParseConfig {
        image_output_dir: Some("images".into()),
        ..Default::default()
    });
    assert_eq!(
        parser.validate_output_config().unwrap_err().message(),
        "invalid config: image_output_dir requires extract_images = true (or image_mode = embed)"
    );

    let embed = LiteParse::new(LiteParseConfig {
        image_mode: ImageMode::Embed,
        image_output_dir: Some("images".into()),
        ..Default::default()
    });
    assert!(embed.validate_output_config().is_ok());
}

fn image(id: &str, format: &str, duplicate_of: Option<&str>) -> ExtractedImage {
    let zero = pt(0.0);
    ExtractedImage {
        id: id.into(),
        name: format!("img_{id}.{format}"),
        path: None,
        page: 1,
        bbox: Rect { x: zero, y: zero, width: zero, height: zero },
        width: 2,
        height: 2,
        rotation: Angle { units: 0 },
        format: format.into(),
        duplicate_of: duplicate_of.map(str::to_owned),
        bytes: Vec::new(),
    }
}

fn parsed(markdown: &str) -> ParsedPage {
    ParsedPage {
        page_number: 1,
        page_width: pt(612.0),
        page_height: pt(792.0),
        content_bounds: None,
        text: String::new(),
        markdown: markdown.into(),
        text_items: vec![],
        projected_lines: vec![],
        regions: vec![],
        figures: vec![],
        complexity: None,
        blocks: None,
        annotations: None,
        extras: PageExtras::default(),
    }
}

#[test]
fn duplicate_image_markdown_refs_are_rewritten_to_canonical() {
    let mut pages = vec![parsed("intro\n\n![](img_p2_1.jpg)\n\noutro")];
    let mut full_text = pages[0].markdown.clone();
    let images = vec![
        image("p1_1", "jpg", None),
        image("p2_1", "jpg", Some("p1_1")),
    ];

    rewrite_duplicate_image_refs(&mut pages, &mut full_text, &images);

    // The duplicate's ref now points at the canonical file; canonical
    // refs and surrounding text are untouched.
    assert_eq!(pages[0].markdown, "intro\n\n![](img_p1_1.jpg)\n\noutro");
    assert_eq!(full_text, pages[0].markdown);
}

#[test]
fn a_text_without_duplicates_stays() {
    let mut pages = vec![parsed("![](img_p1_1.jpg) and ![](img_p9_9.png)")];
    let mut text = "plain".to_string();
    let images = vec![image("p1_1", "jpg", None), image("p2_1", "jpg", Some("p7_7"))];
    rewrite_duplicate_image_refs(&mut pages, &mut text, &images);
    assert_eq!(pages[0].markdown, "![](img_p1_1.jpg) and ![](img_p9_9.png)");
    assert_eq!(text, "plain");
}

#[test]
fn only_originals_get_files_of_their_own() {
    let mut images = vec![
        image("p1_1", "png", None),
        image("p2_1", "png", Some("p1_1")),
        image("p3_1", "png", Some("p2_1")), // its original has no file
        image("p4_1", "png", Some("p9_9")), // its original is not there
    ];
    assert_eq!(plan_image_files(&images), vec![None, Some(0), None, None]);
    let paths = vec![
        Some("d/img_p1_1.png".to_string()),
        None,
        Some("d/img_p3_1.png".to_string()),
        Some("d/img_p4_1.png".to_string()),
    ];
    assign_image_paths(&mut images, &paths);
    assert_eq!(images[0].path, images[1].path);
    assert_eq!(images[1].path.as_deref(), Some("d/img_p1_1.png"));
    assert_eq!(images[1].name, "img_p2_1.png");
    assert_eq!(images[2].path.as_deref(), Some("d/img_p3_1.png"));
}

#[test]
fn target_pages_are_read_or_refused() {
    let read = |s: &String| -> Result<Vec<u32>, String> {
        if s == "1-2" {
            Ok(vec![1, 2])
        } else {
            Err(format!("cannot read {s}"))
        }
    };
    let with = |t: Option<&str>| {
        LiteParse::new(LiteParseConfig {
            target_pages: t.map(str::to_owned),
            ..Default::default()
        })
    };
    assert_eq!(with(None).resolve_target_pages(&read).unwrap(), None);
    assert_eq!(
        with(Some("1-2")).resolve_target_pages(&read).unwrap(),
        Some(vec![1, 2])
    );
    let e = with(Some("x")).resolve_target_pages(&read).unwrap_err();
    assert_eq!(e.message(), "invalid --target-pages: cannot read x");
}

#[test]
fn the_callers_engine_goes_first() {
    let config = |url: Option<&str>, enabled: bool| LiteParseConfig {
        ocr_enabled: enabled,
        ocr_server_url: url.map(str::to_owned),
        ..Default::default()
    };
    let choice = |c| LiteParse::new(c).ocr_choice(OcrHost::Bundled).unwrap();
    assert!(matches!(choice(config(Some("u"), false)), OcrChoice::Disabled));
    assert!(matches!(choice(config(Some("u"), true)), OcrChoice::Server { url, .. } if url == "u"));
    assert!(matches!(choice(config(None, true)), OcrChoice::BuiltIn { tessdata_path: None }));
    let own = LiteParse::new(config(Some("u"), true)).with_ocr_engine(5u8);
    assert!(matches!(own.ocr_choice(OcrHost::CallbackOnly).unwrap(), OcrChoice::Provided));
    let none = LiteParse::new(config(None, true)).ocr_choice(OcrHost::ServerOnly).unwrap_err();
    assert_eq!(
        none.message(),
        "OCR enabled but no --ocr-server-url provided and tesseract feature is disabled"
    );
    let none = LiteParse::new(config(Some("u"), true)).ocr_choice(OcrHost::CallbackOnly);
    assert_eq!(
        none.unwrap_err().message(),
        "OCR enabled but no `ocrEngine` callback was provided (WASM builds have no built-in OCR engine)"
    );
}

#[test]
fn a_server_is_asked_as_the_options_say() {
    let parser = LiteParse::new(LiteParseConfig {
        ocr_server_url: Some("u".into()),
        ocr_server_headers: vec![Header { name: "n".into(), value: "v".into() }],
        ocr_hedge_delays_ms: vec![200, 900],
        ..Default::default()
    });
    match parser.ocr_choice(OcrHost::ServerOnly).unwrap() {
        OcrChoice::Server { url, headers, hedge_delays_ms } => {
            assert_eq!(url, "u");
            assert_eq!(headers.len(), 1);
            assert_eq!((headers[0].name.as_str(), headers[0].value.as_str()), ("n", "v"));
            assert_eq!(hedge_delays_ms, vec![200, 900]);
        }
        other => panic!("{other:?}"),
    }
    let trained = LiteParse::new(LiteParseConfig {
        tessdata_path: Some("t".into()),
        ..Default::default()
    });
    assert!(matches!(
        trained.ocr_choice(OcrHost::Bundled).unwrap(),
        OcrChoice::BuiltIn { tessdata_path: Some(p) } if p == "t"
    ));
}

#[test]
fn markdown_wants_links_and_word_boxes() {
    let plain = LiteParse::new(LiteParseConfig {
        max_pages: 3,
        ..Default::default()
    })
    .with_glyph_resolver(1u8);
    let r = plain.extract_request(None, plain.config().max_pages);
    assert!(!r.extract_links && !r.output.emit_word_boxes);
    assert_eq!(r.glyph_resolver, Some(&1u8));
    assert_eq!(r.max_pages, 3);
    let md = LiteParse::new(LiteParseConfig {
        output_format: OutputFormat::Markdown,
        ..Default::default()
    });
    let r = md.extract_request(None, usize::MAX);
    assert!(r.extract_links && r.output.emit_word_boxes);
    let wired = LiteParse::new_resolving(LiteParseConfig::default(), Some(2u8));
    assert_eq!(wired.extract_request(None, usize::MAX).glyph_resolver, Some(&2u8));
    let bare = LiteParse::new_resolving(LiteParseConfig::default(), None::<u8>);
    assert_eq!(bare.extract_request(None, usize::MAX).glyph_resolver, None);
    let c = md.complexity_request(None);
    assert!(!c.extract_links && !c.output.emit_word_boxes);
}

fn text_page(number: usize, texts: &[(&str, f64, f64)]) -> Page {
    Page {
        page_number: number,
        page_width: pt(100.0),
        page_height: pt(100.0),
        content_bounds: None,
        text_items: texts
            .iter()
            .map(|(t, x, y)| TextItem {
                text: (*t).into(),
                x: pt(*x),
                y: pt(*y),
                width: pt(10.0),
                height: pt(10.0),
                font_size: Some(pt(10.0)),
                ..Default::default()
            })
            .collect(),
        annotations: None,
        extras: PageExtras::default(),
    }
}

#[test]
fn lines_and_words_are_told_apart_by_where_they_stand() {
    let page = text_page(
        1,
        &[
            ("one", 0.0, 0.0),
            ("two", 11.5, 0.0), // 1.5 is no more than 0.15 of 10
            ("three", 23.01, 4.9), // a gap, still on the line
            ("", 50.0, 50.0),
            ("four", 0.0, 9.9), // half a size further down
        ],
    );
    assert_eq!(native_page_text(&page.text_items), "onetwo three\nfour");
    assert_eq!(native_page_text(&vec![]), "");
}

#[test]
fn a_document_with_hardly_any_text_is_sparse() {
    let short = "x".repeat(31);
    assert!(is_text_sparse(&vec![text_page(1, &[(short.as_str(), 0.0, 0.0), ("  ", 0.0, 0.0)])]));
    assert!(!is_text_sparse(&vec![
        text_page(1, &[(short.as_str(), 0.0, 0.0)]),
        text_page(2, &[(" y ", 0.0, 0.0)]),
    ]));
    // Bytes count, not characters.
    let wide = "é".repeat(16);
    assert!(!is_text_sparse(&vec![text_page(1, &[(wide.as_str(), 0.0, 0.0)])]));
}

fn para(s: &str) -> Block {
    Block::Paragraph { text: s.into() }
}

fn heading(s: &str) -> Block {
    Block::Heading { level: 1, text: s.into() }
}

#[test]
fn blocks_are_shared_out_without_losing_their_order() {
    let tagged = vec![
        (para("a"), BlockSource::Body(0)),
        (para("b"), BlockSource::Body(1)), // laid out nowhere
        (para("c"), BlockSource::Body(2)),
        (para("d"), BlockSource::Body(3)), // would go back
        (para("n"), BlockSource::Note),
        (para("e"), BlockSource::Body(4)), // past the end
    ];
    let pages: HashMap<usize, usize> =
        [(0, 0), (2, 1), (3, 0), (4, 9)].into_iter().collect();
    let out = split_blocks_by_page(&tagged, &pages, 3);
    assert_eq!(out[0], vec![para("a"), para("b")]);
    assert_eq!(out[1], vec![para("c"), para("d")]);
    assert_eq!(out[2], vec![para("n"), para("e")]);
    let all: Vec<Block> = out.concat();
    let flat: Vec<Block> = tagged.into_iter().map(|(b, _)| b).collect();
    assert_eq!(all, flat);
    assert_eq!(split_blocks_by_page(&vec![], &pages, 0).len(), 1);
}

#[test]
fn slides_take_their_blocks_and_name_themselves() {
    let tagged = vec![
        (heading("T1"), SlideSource::Slide(0)),
        (para("x"), SlideSource::Diagram(0)),
        (heading(" "), SlideSource::Slide(1)),
        (para("n"), SlideSource::Notes(1)),
        (para("lost"), SlideSource::Slide(7)),
    ];
    let out = split_pptx_blocks_by_page(&tagged, 2);
    assert_eq!(out[0], vec![heading("T1"), para("x")]);
    assert_eq!(out[1], vec![heading(" "), para("n")]);
    let outline = pptx_slide_outline(&out);
    assert_eq!(outline.len(), 1);
    assert_eq!(outline[0].title, "T1");
    assert_eq!((outline[0].level, outline[0].page_index, outline[0].y_pdf), (1, 0, None));
    // Slides have no hierarchy, whatever level their titles are at.
    let deep = pptx_slide_outline(&vec![vec![Block::Heading { level: 3, text: "D".into() }]]);
    assert_eq!((deep[0].level, deep[0].title.as_str()), (1, "D"));
}

#[test]
fn tables_are_counted() {
    let blocks = vec![
        Block::Table { body: "a".into() },
        para("b"),
        Block::MergedTable { body: "c".into() },
        Block::HorizontalRule,
    ];
    assert_eq!(count_tables(&blocks), 2);
}

#[test]
fn headers_and_footers_frame_their_pages() {
    let pages = vec![vec![para("a")], vec![para("b")]];
    let edges = vec![(vec![heading("h")], vec![para("f")])];
    let out = add_headers_footers(pages, &edges);
    assert_eq!(out[0], vec![heading("h"), para("a"), para("f")]);
    assert_eq!(out[1], vec![para("b")]);
}

#[test]
fn pages_are_chosen_by_number_and_then_counted() {
    let make = || {
        (
            (1..=4).map(|n| text_page(n, &[])).collect::<Vec<Page>>(),
            (1..=4).map(|n| vec![para(&n.to_string())]).collect::<Vec<Vec<Block>>>(),
            vec![None; 4],
        )
    };
    let (p, b, s) = make();
    let (pages, blocks, stats, narrowed) =
        select_native_pages(p, b, s, &Some(vec![4, 2, 2, 9]), 1);
    assert_eq!(pages.len(), 1);
    assert_eq!(pages[0].page_number, 2);
    assert_eq!(blocks[0], vec![para("2")]);
    assert_eq!(stats.len(), 1);
    assert!(narrowed);
    let (p, b, s) = make();
    let (pages, _, _, narrowed) = select_native_pages(p, b, s, &None, 4);
    assert_eq!(pages.len(), 4);
    assert!(!narrowed);
    let (p, b, s) = make();
    let (pages, _, _, narrowed) = select_native_pages(p, b, s, &None, 3);
    assert_eq!(pages.len(), 3);
    assert!(narrowed);
}

fn render(blocks: &Vec<Block>) -> String {
    blocks
        .iter()
        .map(|b| match b {
            Block::Heading { text, .. } => format!("# {text}"),
            Block::Paragraph { text } => text.clone(),
            Block::Figure { id, format } => format!("![](img_{id}.{format})"),
            _ => "---".to_string(),
        })
        .collect::<Vec<String>>()
        .join("\n\n")
}

fn measure(page: &Page, rects: &Vec<Rect>, tables: usize, columns: usize) -> PageComplexityStats {
    PageComplexityStats {
        page_number: page.page_number,
        needs_ocr: !rects.is_empty(),
        layout: Some(LayoutComplexityStats { columns, tables, is_complex: false }),
    }
}

fn docx(config: &LiteParseConfig, targets: Option<Vec<u32>>) -> liteparse::parser::ParseResult {
    let layout = NativeLayout {
        pages: vec![
            text_page(1, &[("first page of text that is long enough", 0.0, 0.0)]),
            text_page(2, &[("second", 0.0, 0.0)]),
        ],
        outline: vec![OutlineTarget {
            level: 1,
            title: "T".into(),
            page_index: 0,
            y_pdf: None,
        }],
        block_pages: [(0, 0), (1, 1)].into_iter().collect(),
    };
    let input = DocxInput {
        layout,
        commands: vec![],
        tagged: vec![
            (heading("T"), BlockSource::Body(0)),
            (
                Block::Figure { id: "p2_1".into(), format: "png".into() },
                BlockSource::Body(1),
            ),
        ],
        edges: vec![(vec![para("head")], vec![para("foot")])],
        sections: vec![],
        images: vec![image("p1_1", "png", None), image("p2_1", "png", Some("p1_1"))],
    };
    parse_docx_native(config, input, Ok(targets), &measure, &render)
        .unwrap()
        .unwrap()
}

#[test]
fn a_text_document_is_rendered_as_a_whole() {
    let config = LiteParseConfig {
        output_format: OutputFormat::Markdown,
        extract_images: true,
        extract_xfa_packets: true,
        include_complexity: true,
        ..Default::default()
    };
    let r = docx(&config, None);
    assert_eq!(r.text, "# T\n\n![](img_p1_1.png)");
    assert_eq!(r.pages[0].markdown, "# T");
    assert_eq!(r.pages[1].markdown, "![](img_p1_1.png)");
    assert_eq!(r.pages[1].text, "second");
    assert_eq!(r.images.len(), 2);
    assert_eq!(r.outline.len(), 1);
    assert_eq!(r.xfa_packets.map(|p| p.len()), Some(0));
    assert_eq!(r.pages[0].complexity.map(|s| s.page_number), Some(1));
}

#[test]
fn a_selection_is_rendered_page_by_page() {
    let config = LiteParseConfig {
        output_format: OutputFormat::Markdown,
        ..Default::default()
    };
    let r = docx(&config, Some(vec![2]));
    assert_eq!(r.pages.len(), 1);
    assert_eq!(r.text, "![](img_p2_1.png)", "no images were asked for");
    assert_eq!(r.outline.len(), 1, "the outline stays whole");
    let kept = LiteParseConfig { keep_headers_footers: true, ..config };
    let r = docx(&kept, None);
    assert_eq!(
        r.text,
        "head\n\n# T\n\nfoot\n\n-----\n\n![](img_p2_1.png)"
    );
    let plain = docx(&LiteParseConfig::default(), None);
    assert_eq!(plain.text, "first page of text that is long enough\n\nsecond");
    assert_eq!(plain.pages[0].markdown, "");
}

#[test]
fn a_sparse_deck_gives_way_and_a_bad_selection_fails() {
    let pages = || vec![text_page(1, &[("short", 0.0, 0.0)])];
    let config = LiteParseConfig::default();
    let none = parse_pptx_native(
        &config,
        pages(),
        &vec![],
        vec![],
        vec![],
        Ok(None),
        &measure,
        &render,
    );
    assert!(matches!(none, Ok(None)));
    let off = LiteParseConfig { ocr_enabled: false, ..Default::default() };
    let bad = parse_pptx_native(
        &off,
        pages(),
        &vec![],
        vec![],
        vec![],
        Err(LiteParseError::Other("bad".into())),
        &measure,
        &render,
    );
    assert_eq!(bad.unwrap_err().message(), "bad");
    let good = parse_pptx_native(
        &off,
        pages(),
        &vec![],
        vec![(heading("T"), SlideSource::Slide(0))],
        vec![],
        Ok(None),
        &measure,
        &render,
    )
    .unwrap()
    .unwrap();
    assert_eq!(good.text, "short");
    assert_eq!(good.outline[0].title, "T");
}

#[test]
fn a_workbook_states_its_own_pages() {
    let config = LiteParseConfig {
        ocr_enabled: false,
        output_format: OutputFormat::Markdown,
        extract_content_bounds: true,
        include_complexity: true,
        ..Default::default()
    };
    let bounds = Rect { x: pt(1.0), y: pt(1.0), width: pt(2.0), height: pt(2.0) };
    let mut page = text_page(1, &[("cell", 0.0, 0.0)]);
    page.content_bounds = Some(bounds);
    let parts = xlsx_parts(
        vec![page],
        vec![vec![Block::Table { body: "t".into() }]],
        vec![para("all")],
        vec![],
        vec![],
        vec![vec![bounds]],
    );
    let r = parse_xlsx_native(&config, parts, Ok(None), &measure, &render)
        .unwrap()
        .unwrap();
    assert_eq!(r.text, "all");
    assert_eq!(r.pages[0].content_bounds, Some(bounds));
    let stats = r.pages[0].complexity.unwrap();
    assert!(stats.needs_ocr);
    assert_eq!(stats.layout.unwrap().tables, 1);
    assert_eq!(stats.layout.unwrap().columns, 1);
}

fn rate(_page: &ParsedPage) -> LayoutComplexityStats {
    LayoutComplexityStats { columns: 2, tables: 0, is_complex: true }
}

#[test]
fn a_parse_is_its_stages_one_after_the_other() {
    let parser = LiteParse::new(LiteParseConfig {
        output_format: OutputFormat::Markdown,
        crop_box: Some(CropBox { top: 0, bottom: 0, left: 0, right: 500_000 }),
        extract_blocks: true,
        ..Default::default()
    });
    let taken = || {
        vec![
            text_page(1, &[("left", 10.0, 0.0), ("right", 60.0, 0.0)]),
            text_page(3, &[("![](img_p3_1.png)", 0.0, 0.0)]),
        ]
    };
    let outcomes = || {
        vec![PageOcrOutcome {
            page_number: 1,
            native_usable: true,
            results: Ok(vec![OcrResult {
                text: "read".into(),
                bbox: Rect { x: pt(20.0), y: pt(5.0), width: pt(9.0), height: pt(4.0) },
                artifact: false,
            }]),
        }]
    };
    let stats = vec![PageComplexityStats { page_number: 3, needs_ocr: false, layout: None }];
    let mut pages = taken();
    merge_ocr(&mut pages, outcomes(), true).unwrap();
    let extracted = Extracted {
        total_pages: 9,
        pages,
        page_errors: vec![PageError { page_number: 2, message: "broken".into() }],
        screenshots: vec![],
        outline: vec![],
        images: vec![image("p1_1", "png", None), image("p3_1", "png", Some("p1_1"))],
        image_error_count: 2,
        complexity: stats.clone(),
        form_type: Some(1),
        creator: Some(String::new()),
        producer: Some("maker".into()),
        doc_meta: None,
        xfa_packets: None,
    };
    let lay = |pages: &Vec<ParsedPage>, _: &Vec<OutlineTarget>, m: ImageMode, keep: bool| {
        assert_eq!((m, keep), (ImageMode::Placeholder, false));
        let one = |p: &ParsedPage| {
            vec![LayoutBlock { block: para(&p.text), bbox: p.content_bounds }]
        };
        pages.iter().map(one).collect::<Vec<_>>()
    };
    let r = parser.finish_parse(extracted, &grid, &rate, &format, &lay);
    assert_eq!((r.total_pages, r.page_errors[0].page_number), (9, 2));
    assert_eq!(r.pages[0].blocks.as_ref().unwrap()[0].block, para("left\nread"));
    assert_eq!(r.pages[0].text, "left\nread");
    assert_eq!(r.text, "# left\nread\n\n-----\n\n# ![](img_p1_1.png)");
    assert_eq!(r.pages[1].markdown, "# ![](img_p1_1.png)");
    // The statistics are those of the third page, so the first has none.
    assert!(r.pages[0].complexity.is_none());
    assert_eq!(r.pages[1].complexity.unwrap().layout.unwrap().columns, 2);
    assert_eq!(r.creator, None, "an empty entry is none");
    assert_eq!(r.producer.as_deref(), Some("maker"));
    assert_eq!((r.image_error_count, r.form_type), (2, Some(1)));

    let mut by_hand = taken();
    merge_ocr(&mut by_hand, outcomes(), true).unwrap();
    apply_content_filters(&mut by_hand, &parser.content_filters());
    let mut by_hand = attach_complexity(project(by_hand, &grid), &stats, &rate);
    let md = format(&by_hand, &vec![], ImageMode::Placeholder, false);
    let found = lay(&by_hand, &vec![], ImageMode::Placeholder, false);
    let mut text = md.join("\n\n-----\n\n");
    for (page, md) in by_hand.iter_mut().zip(md) {
        page.markdown = md;
    }
    for (page, blocks) in by_hand.iter_mut().zip(found) {
        page.blocks = Some(blocks);
    }
    canonicalize_image_refs(&mut by_hand, &mut text, &r.images);
    assert_eq!(text, r.text);
    assert_eq!(format!("{by_hand:?}"), format!("{:?}", r.pages));
}

#[test]
fn plain_text_of_the_pages_is_joined_by_empty_lines() {
    let parser = LiteParse::new(LiteParseConfig::default());
    let r = parser.parse_from_pages(
        vec![text_page(1, &[("a", 0.0, 0.0)]), text_page(2, &[("b", 0.0, 0.0)])],
        vec![],
        &grid,
        &format,
    );
    assert_eq!(r.text, "a\n\nb");
    assert!(r.images.is_empty() && r.xfa_packets.is_none());
    assert_eq!((r.total_pages, r.page_errors.len(), r.screenshots.len()), (2, 0, 0));
    assert!(r.pages[0].blocks.is_none());
    let md = LiteParse::new(LiteParseConfig {
        output_format: OutputFormat::Markdown,
        ..Default::default()
    });
    let r = md.parse_from_pages(vec![text_page(1, &[("a", 0.0, 0.0)])], vec![], &grid, &format);
    assert_eq!((r.text.as_str(), r.pages[0].markdown.as_str()), ("# a", "# a"));
}
