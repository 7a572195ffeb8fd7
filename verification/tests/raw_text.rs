use liteparse::raw_text::{
    append_raw_widget_text_items, build_item, c_string_from_utf32, extract_raw_text_items,
    grounding_bounds, is_c_locale_space, load_glyph, measure_baseline_gap, pack_argb,
    same_text_item, segment_runs, Color, FontType, GapFacts, Glyph, GlyphFacts, GlyphReading,
    ItemFont, RawTextItem, RectF,
};
use liteparse::units::{Direction, Pt};

const ONE: i64 = 1 << 30;
const LEVEL: Direction = Direction { sin: 0, cos: ONE };

fn pt(x: f64) -> Pt {
    Pt::from_emu((x * 12700.0).round() as i64)
}

/// Radians in millionths.
fn rad(x: f64) -> i64 {
    (x * 1_000_000.0).round() as i64
}

#[test]
fn c_locale_space_is_ascii_only() {
    for space in [0x09, 0x0A, 0x0B, 0x0C, 0x0D, 0x20] {
        assert!(is_c_locale_space(space), "{space:#x}");
    }
    for not_space in [
        0x00, 0x08, 0x0E, 0x1F, 0x21, 0x85, 0xA0, 0x2003, 0x202F, 0x3000,
    ] {
        assert!(!is_c_locale_space(not_space), "{not_space:#x}");
    }
}

#[test]
fn utf32_conversion_keeps_c_string_semantics() {
    assert_eq!(
        c_string_from_utf32(&vec![0x48, 0x69, 0x20]).as_deref(),
        Some("Hi ")
    );
    // A 0 terminates the string; what follows is dropped, not the item.
    assert_eq!(
        c_string_from_utf32(&vec![0x48, 0x00, 0x69]).as_deref(),
        Some("H")
    );
    assert_eq!(c_string_from_utf32(&vec![0x00]).as_deref(), Some(""));
    assert_eq!(c_string_from_utf32(&vec![]).as_deref(), Some(""));
    // A surrogate or out-of-range value drops the item, even after a 0.
    assert_eq!(c_string_from_utf32(&vec![0x48, 0xD800]), None);
    assert_eq!(c_string_from_utf32(&vec![0x48, 0x00, 0x110000]), None);
    // Noncharacters are valid scalars and pass through.
    assert_eq!(
        c_string_from_utf32(&vec![0xFFFE]).as_deref(),
        Some("\u{FFFE}")
    );
}

fn rect(left: f64, top: f64, right: f64, bottom: f64) -> RectF {
    RectF {
        left: pt(left),
        top: pt(top),
        right: pt(right),
        bottom: pt(bottom),
    }
}

fn glyph(strict: RectF, generated: bool) -> Glyph {
    Glyph {
        text_object: None,
        generated,
        char_code: 0,
        unicode: 0,
        loose: strict,
        strict,
        angle: 0,
    }
}

#[test]
fn grounding_bounds_skip_spaces_and_generated_glyphs() {
    let glyphs = vec![
        glyph(rect(10.0, 20.0, 15.0, 30.0), false),
        glyph(rect(15.0, 20.0, 20.0, 30.0), false),
        glyph(rect(20.0, 20.0, 25.0, 30.0), true),
        glyph(rect(25.0, 20.0, 30.0, 30.0), false),
        glyph(rect(30.0, 20.0, 35.0, 30.0), false),
        glyph(rect(35.0, 0.0, 40.0, 40.0), false),
    ];
    // Space glyph, a generated glyph and an unmapped (0) glyph all drop out.
    let codepoints: Vec<u32> = [b'H', b'i', b' ', b' ', b'!', 0].map(u32::from).to_vec();
    let bounds = grounding_bounds(&glyphs, 0, 6, &codepoints, LEVEL).unwrap();
    assert_eq!(bounds, rect(10.0, 20.0, 35.0, 30.0));
    assert!(grounding_bounds(&glyphs, 2, 3, &vec![codepoints[2]], LEVEL).is_none());
    // A degenerate strict box contributes nothing.
    let flat = vec![glyph(rect(1.0, 1.0, 1.0, 5.0), false)];
    assert!(grounding_bounds(&flat, 0, 1, &vec![u32::from(b'x')], LEVEL).is_none());
}

#[test]
fn grounding_bounds_rotate_about_the_centre() {
    // One 10×4 box at a quarter turn: along the baseline it measures the box's
    // height, across it the width, centred where the box is centred.
    let glyphs = vec![glyph(rect(0.0, 0.0, 10.0, 4.0), false)];
    let quarter = Direction { sin: ONE, cos: 0 };
    let bounds = grounding_bounds(&glyphs, 0, 1, &vec![u32::from(b'x')], quarter).unwrap();
    assert_eq!((bounds.left, bounds.right), (pt(3.0), pt(7.0)));
    assert_eq!((bounds.top, bounds.bottom), (pt(-3.0), pt(7.0)));
}

fn item(text: &str, x: f64, y: f64, width: f64, height: f64, angle: f64) -> RawTextItem {
    RawTextItem {
        text: text.into(),
        char_codes: Vec::new(),
        glyph_names: None,
        angle: rad(angle),
        text_width: pt(0.0),
        x: pt(x),
        y: pt(y),
        width: pt(width),
        height: pt(height),
        grounding_bounds: None,
        baseline_gap: None,
        mcid: Some(3),
        font_name: String::new(),
        font_size: pt(0.0),
        font_weight: 0,
        font_height: pt(0.0),
        font_ascent: pt(0.0),
        font_descent: pt(0.0),
        font_is_buggy: false,
        trailing_space_generated: false,
        fill_color: None,
        stroke_color: None,
    }
}

#[test]
fn same_text_item_needs_equal_text_and_geometry() {
    let a = item("Total ", 10.0, 20.0, 30.0, 8.0, 0.0);
    assert!(same_text_item(
        &a,
        &item("Total", 10.005, 20.0, 29.995, 8.0, 0.0005)
    ));
    assert!(!same_text_item(
        &a,
        &item("Total", 10.02, 20.0, 29.98, 8.0, 0.0)
    ));
    assert!(!same_text_item(
        &a,
        &item("Total", 10.0, 20.0, 30.0, 8.0, 0.002)
    ));
    assert!(!same_text_item(
        &a,
        &item("Totals", 10.0, 20.0, 30.0, 8.0, 0.0)
    ));
    // Whitespace-only text never matches, so blank widgets are always kept.
    let blank = item("  ", 10.0, 20.0, 30.0, 8.0, 0.0);
    assert!(!same_text_item(&blank, &blank));
}

#[test]
fn argb_packing_matches_fpdf_argb() {
    let color = Color {
        r: 0x12,
        g: 0x34,
        b: 0x56,
        a: 0xFF,
    };
    assert_eq!(pack_argb(color), 0xFF12_3456);
}

#[test]
fn a_widget_item_is_added_once_and_without_its_content_id() {
    let mut items = vec![item("Total", 10.0, 20.0, 30.0, 8.0, 0.0)];
    let widgets = vec![
        item("Total ", 10.0, 20.0, 30.0, 8.0, 0.0),
        item("Name", 50.0, 20.0, 30.0, 8.0, 0.0),
        item(" ", 10.0, 20.0, 30.0, 8.0, 0.0),
    ];
    assert!(append_raw_widget_text_items(Some(widgets), &mut items));
    let texts: Vec<&str> = items.iter().map(|i| i.text.as_str()).collect();
    assert_eq!(texts, vec!["Total", "Name", " "]);
    assert_eq!(items[0].mcid, Some(3));
    assert_eq!(items[1].mcid, None);
    // Without a copy nothing is added.
    assert!(!append_raw_widget_text_items(None, &mut items));
    assert_eq!(items.len(), 3);
}

fn letter(c: char, object: usize, x: f64) -> Glyph {
    Glyph {
        text_object: Some(object),
        generated: false,
        char_code: c as u32,
        unicode: c as u32,
        loose: rect(x, 0.0, x + 5.0, 10.0),
        strict: rect(x + 1.0, 2.0, x + 4.0, 9.0),
        angle: 0,
    }
}

fn made(c: u32, x: f64) -> Glyph {
    Glyph {
        generated: true,
        char_code: 0,
        unicode: c,
        ..letter('x', 1, x)
    }
}

fn font(embedded: bool, font_type: FontType) -> ItemFont {
    ItemFont {
        base_name: Some("Body".into()),
        ascent: Some(pt(8.0)),
        descent: None,
        embedded,
        suspect_name: false,
        font_type,
    }
}

fn facts(x: f64) -> GlyphFacts {
    GlyphFacts {
        code_width: Some(pt(5.0)),
        unicode_width: Some(pt(2.0)),
        suspect: false,
        named: None,
        recognised: None,
        glyph_name: None,
        font: Some(font(true, FontType::TrueType)),
        font_size: pt(10.0),
        font_weight: 400,
        scaled_size: pt(20.0),
        mcid: Some(4),
        fill: Some(Color { r: 1, g: 2, b: 3, a: 255 }),
        stroke: None,
        direction: LEVEL,
        gap: GapFacts {
            unicode: 0x61,
            encoding: None,
            baseline: Some(LEVEL),
            origin: Some((pt(x), pt(0.0))),
            advance: Some(pt(5.0)),
        },
    }
}

#[test]
fn every_glyph_lands_in_one_run_but_line_ends_in_none() {
    let glyphs = vec![
        letter('a', 1, 0.0),
        letter('b', 1, 5.0),
        letter(' ', 1, 10.0), // closes, and belongs to the run
        letter('c', 1, 15.0),
        letter('d', 2, 20.0), // another object
        made(0x0A, 25.0),     // a line end belongs to none
        Glyph { angle: 0, ..letter('e', 2, 30.0) },
        Glyph { angle: 10_001, ..letter('f', 2, 35.0) }, // another angle
        made(0x20, 40.0),                                // another object, and a gap
    ];
    assert_eq!(
        segment_runs(&glyphs),
        vec![(0, 3), (3, 4), (4, 5), (6, 7), (7, 8), (8, 9)]
    );
}

#[test]
fn a_small_turn_does_not_split_a_run() {
    let glyphs = vec![
        letter('a', 1, 0.0),
        Glyph { angle: 10_000, ..letter('b', 1, 5.0) },
        Glyph { angle: -10_000, ..letter('c', 1, 10.0) },
    ];
    assert_eq!(segment_runs(&glyphs), vec![(0, 3)]);
}

#[test]
fn an_item_sums_up_its_run() {
    let glyphs = vec![letter('H', 1, 0.0), letter('i', 1, 5.0), made(0x20, 10.0)];
    let all = vec![facts(0.0), facts(5.0), facts(10.0)];
    let items = extract_raw_text_items(&glyphs, &all, false);
    assert_eq!(items.len(), 1);
    let it = &items[0];
    assert_eq!(it.text, "Hi ");
    assert_eq!(it.char_codes, vec![0x48, 0x69, 0]);
    assert_eq!(it.text_width, pt(12.0));
    assert_eq!((it.x, it.y, it.width, it.height), (pt(0.0), pt(0.0), pt(15.0), pt(10.0)));
    assert_eq!(it.grounding_bounds, Some(rect(1.0, 2.0, 9.0, 9.0)));
    assert_eq!(it.font_name, "Body");
    assert_eq!((it.font_ascent, it.font_descent), (pt(8.0), pt(0.0)));
    assert_eq!((it.font_size, it.font_height), (pt(10.0), pt(20.0)));
    assert_eq!(it.mcid, Some(4));
    assert!(it.trailing_space_generated);
    // A hyphen that was made up is no space.
    let hyphen = vec![letter('H', 1, 0.0), made(0x2d, 5.0)];
    let broken = extract_raw_text_items(&hyphen, &vec![facts(0.0), facts(5.0)], false);
    assert!(!broken[0].trailing_space_generated);
    assert!(!it.font_is_buggy);
    assert_eq!(it.fill_color, Some(0xFF01_0203));
    assert_eq!(it.stroke_color, None);
    assert_eq!(it.glyph_names, None);
}

#[test]
fn a_glyph_without_an_object_has_no_font() {
    let glyphs = vec![Glyph { text_object: None, ..letter('H', 1, 0.0) }];
    let items = extract_raw_text_items(&glyphs, &vec![facts(0.0)], false);
    assert_eq!(items[0].font_name, "");
    assert_eq!(items[0].text_width, pt(0.0));
    assert_eq!(items[0].font_height, pt(0.0));
}

#[test]
fn a_font_that_cannot_be_trusted_is_read_again() {
    let glyphs = vec![letter('a', 1, 0.0), letter('b', 1, 5.0), letter('c', 1, 10.0)];
    let doubtful = || {
        let mut all = vec![facts(0.0), facts(5.0), facts(10.0)];
        all[1].suspect = true;
        all[0].recognised = Some(0x58);
        all[1].recognised = Some(0x59);
        all
    };
    // Without a resolver the text stays, but the item says so.
    let plain = build_item(&glyphs, &doubtful(), 0, 3, false).unwrap();
    assert!(plain.font_is_buggy);
    assert_eq!(plain.text, "abc");
    // With one, what is not recognised becomes a space.
    let again = build_item(&glyphs, &doubtful(), 0, 3, true).unwrap();
    assert_eq!(again.text, "XY ");
    assert_eq!(again.grounding_bounds, Some(rect(1.0, 2.0, 9.0, 9.0)));
}

#[test]
fn a_font_that_names_its_glyphs_goes_by_the_names() {
    let glyphs = vec![letter('a', 1, 0.0), letter('b', 1, 5.0)];
    let mut all = vec![facts(0.0), facts(5.0)];
    for f in all.iter_mut() {
        f.font = Some(font(true, FontType::Type3));
        f.suspect = true;
        f.recognised = Some(0x5A);
    }
    all[0].named = Some(0x51);
    all[0].glyph_name = Some("Q".into());
    let it = build_item(&glyphs, &all, 0, 2, true).unwrap();
    assert_eq!(it.text, "QZ");
    assert_eq!(it.glyph_names, Some(vec!["Q".to_string(), String::new()]));
}

#[test]
fn a_code_point_that_is_no_character_drops_the_item() {
    let mut bad = letter('a', 1, 0.0);
    bad.unicode = 0xD800;
    let glyphs = vec![bad, letter('b', 2, 5.0)];
    let items = extract_raw_text_items(&glyphs, &vec![facts(0.0), facts(5.0)], false);
    assert_eq!(items.len(), 1);
    assert_eq!(items[0].text, "b");
}

#[test]
fn a_lone_gap_is_measured_between_its_neighbours() {
    let glyphs = vec![letter('a', 1, 0.0), made(0x20, 5.0), letter('b', 1, 9.0)];
    let all = vec![facts(0.0), facts(5.0), facts(9.0)];
    assert_eq!(measure_baseline_gap(&glyphs, &all, 1), Some(pt(4.0)));
    assert_eq!(measure_baseline_gap(&glyphs, &all, 0), None);
    assert_eq!(measure_baseline_gap(&glyphs, &all, 2), None);
    // Neighbours that overlap give a negative gap, those that run backwards none.
    let near = vec![facts(0.0), facts(5.0), facts(3.0)];
    assert_eq!(measure_baseline_gap(&glyphs, &near, 1), Some(pt(-2.0)));
    let back = vec![facts(9.0), facts(5.0), facts(3.0)];
    assert_eq!(measure_baseline_gap(&glyphs, &back, 1), None);
    // A vertical font has no level advance.
    let mut vertical = vec![facts(0.0), facts(5.0), facts(9.0)];
    vertical[0].font = Some(font(true, FontType::CidType2));
    assert_eq!(measure_baseline_gap(&glyphs, &vertical, 1), None);
    vertical[0].gap.encoding = Some("Identity-H".into());
    assert_eq!(measure_baseline_gap(&glyphs, &vertical, 1), Some(pt(4.0)));
}

#[test]
fn an_unreadable_box_falls_back() {
    let blank = rect(0.0, 0.0, 0.0, 0.0);
    let reading = GlyphReading {
        text_object: None,
        generated: true,
        char_code: 7,
        unicode: 65,
        unmapped: true,
        strict: Some(rect(1.0, 1.0, 2.0, 2.0)),
        loose: None,
        angle: 5,
    };
    let g = load_glyph(&reading, blank);
    assert_eq!((g.char_code, g.unicode, g.angle), (0, 0, 5));
    assert_eq!(g.loose, rect(1.0, 1.0, 2.0, 2.0));
    let nothing = GlyphReading { strict: None, generated: false, unmapped: false, ..reading };
    let g = load_glyph(&nothing, blank);
    assert_eq!((g.char_code, g.unicode), (7, 65));
    assert_eq!((g.strict, g.loose), (blank, blank));
}
