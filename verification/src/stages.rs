//! The steps of a parse, each a function over plain data, so that a caller can
//! run the same sequence and put in steps of its own.
use crate::blocks::Block;
use crate::config::{CropBox, ImageMode};
use crate::docx_layout;
use crate::geometry::Rect;
use crate::images;
use crate::parser::LiteParseError;
use crate::types::{
    ExtractedImage, LayoutBlock, LayoutComplexityStats, OutlineTarget, Page, PageComplexityStats,
    ParsedPage, TextItem,
};
use crate::units::Pt;
use std::collections::HashSet;
use vstd::prelude::*;

verus! {

// ── Extraction ─────────────────────────────────────────────────────────

/// What is taken out of a document besides its text.
#[derive(Clone, Copy, PartialEq, Eq, Structural, Debug)]
pub struct ExtractionOutputOptions {
    pub extract_content_bounds: bool,
    pub extract_images: bool,
    pub emit_word_boxes: bool,
    pub extract_text_metadata: bool,
    pub extract_vector_graphics: bool,
    pub extract_annotations: bool,
    pub extract_form_fields: bool,
    pub extract_structure_tree: bool,
}

impl ExtractionOutputOptions {
    /// Nothing besides the text, in contracts.
    pub open spec fn spec_nothing() -> ExtractionOutputOptions {
        ExtractionOutputOptions {
            extract_content_bounds: false,
            extract_images: false,
            emit_word_boxes: false,
            extract_text_metadata: false,
            extract_vector_graphics: false,
            extract_annotations: false,
            extract_form_fields: false,
            extract_structure_tree: false,
        }
    }
}

impl Default for ExtractionOutputOptions {
    /// Nothing besides the text.
    fn default() -> (r: ExtractionOutputOptions)
        ensures
            r == ExtractionOutputOptions::spec_nothing(),
    {
        ExtractionOutputOptions {
            extract_content_bounds: false,
            extract_images: false,
            emit_word_boxes: false,
            extract_text_metadata: false,
            extract_vector_graphics: false,
            extract_annotations: false,
            extract_form_fields: false,
            extract_structure_tree: false,
        }
    }
}

/// What is taken out of which pages of a document.
#[derive(Debug)]
pub struct ExtractRequest<'a, G> {
    /// Page numbers counted from 1; `None` for every page.
    pub target_pages: Option<&'a Vec<u32>>,
    /// How many pages at most, counted after `target_pages`.
    pub max_pages: usize,
    /// Whether links are put onto the texts that they cover.
    pub extract_links: bool,
    /// What recognises glyphs of fonts that cannot be trusted.
    pub glyph_resolver: Option<&'a G>,
    pub output: ExtractionOutputOptions,
}

impl<'a, G> Default for ExtractRequest<'a, G> {
    /// The text of every page.
    fn default() -> (r: ExtractRequest<'a, G>)
        ensures
            r.target_pages is None,
            r.max_pages == usize::MAX,
            !r.extract_links,
            r.glyph_resolver is None,
            r.output == ExtractionOutputOptions::spec_nothing(),
    {
        ExtractRequest {
            target_pages: None,
            max_pages: usize::MAX,
            extract_links: false,
            glyph_resolver: None,
            output: ExtractionOutputOptions::default(),
        }
    }
}

/// How pictures of the pages of a PDF are made.
#[derive(Clone, Copy, PartialEq, Eq, Structural, Debug)]
pub struct ScreenshotOptions {
    pub dpi: u64,
    /// Whether solid boxes are looked for.
    pub detect_rects: bool,
    pub render_form_fields: bool,
    /// Whether a page that cannot be rendered is passed over.
    pub continue_on_page_error: bool,
}

// ── Text read off pictures ─────────────────────────────────────────────

/// One text that was read off a picture of a page.
#[derive(Debug)]
pub struct OcrResult {
    pub text: String,
    /// Where it stands on the page.
    pub bbox: Rect,
    /// Whether it is no text of the page but noise of the reading.
    pub artifact: bool,
}

/// What came of reading a picture of a page.
#[derive(Debug)]
pub struct PageOcrOutcome {
    /// Counted from 1.
    pub page_number: usize,
    /// Whether the page's own text can be used.
    pub native_usable: bool,
    pub results: Result<Vec<OcrResult>, String>,
}

/// Whether a text item is what becomes of a text that was read: its words, its
/// place, and nothing that only a font would tell.
pub open spec fn is_ocr_item(item: TextItem, r: OcrResult) -> bool {
    &&& item.text@ == r.text@
    &&& item.area() == r.bbox
    &&& docx_layout::opt_text(item.font_name) == Some("OCR"@)
    &&& docx_layout::is_plain_item(item)
    &&& item.font_size is None
    &&& item.font_height is None
    &&& item.font_ascent is None
    &&& item.font_descent is None
    &&& item.font_weight is None
    &&& item.text_width is None
    &&& item.fill_color is None
    &&& item.link is None
    &&& item.words@.len() == 0
}

/// The first `n` texts that are no noise.
pub open spec fn genuine(results: Seq<OcrResult>, n: int) -> Seq<OcrResult>
    decreases n,
{
    if n <= 0 {
        seq![]
    } else if results[n - 1].artifact {
        genuine(results, n - 1)
    } else {
        genuine(results, n - 1).push(results[n - 1])
    }
}

/// The texts of a page that stay when a reading is added: all, where they can be
/// used.
pub open spec fn kept_items(before: Seq<TextItem>, o: PageOcrOutcome) -> Seq<TextItem> {
    if o.native_usable {
        before
    } else {
        seq![]
    }
}

/// Whether the texts of a page after one reading are those before it, where they
/// can be used, and then those that were read.
pub open spec fn is_merged(before: Seq<TextItem>, after: Seq<TextItem>, o: PageOcrOutcome) -> bool {
    match o.results {
        Ok(results) => {
            let kept = kept_items(before, o);
            let read = genuine(results@, results@.len() as int);
            &&& after.len() == kept.len() + read.len()
            &&& after.take(kept.len() as int) == kept
            &&& forall|k: int|
                0 <= k < read.len() ==> is_ocr_item(#[trigger] after[kept.len() + k], read[k])
        },
        Err(_) => after == before,
    }
}

/// Whether every reading failed, and one of them that of a page whose own text
/// cannot be used.
pub open spec fn nothing_read(outcomes: Seq<PageOcrOutcome>) -> bool {
    &&& forall|i: int| 0 <= i < outcomes.len() ==> (#[trigger] outcomes[i]).results is Err
    &&& exists|i: int| 0 <= i < outcomes.len() && !(#[trigger] outcomes[i]).native_usable
}

/// Adds what was read off a page to its texts.
pub fn merge_page(items: Vec<TextItem>, o: &PageOcrOutcome) -> (r: Vec<TextItem>)
    ensures
        is_merged(items@, r@, *o),
{
    let results = match &o.results {
        Ok(results) => results,
        Err(_) => {
            return items;
        },
    };
    let mut out = if o.native_usable {
        items
    } else {
        Vec::new()
    };
    let ghost kept = out@;
    let mut i: usize = 0;
    assert(out@.take(kept.len() as int) =~= kept);
    while i < results.len()
        invariant
            i <= results@.len(),
            out@.len() == kept.len() + genuine(results@, i as int).len(),
            out@.take(kept.len() as int) == kept,
            forall|k: int|
                0 <= k < genuine(results@, i as int).len() ==> is_ocr_item(
                    #[trigger] out@[kept.len() + k],
                    genuine(results@, i as int)[k],
                ),
        decreases results@.len() - i,
    {
        let r = &results[i];
        if !r.artifact {
            let ghost before = out@;
            let mut item = TextItem::default();
            item.text = r.text.clone();
            item.x = r.bbox.x;
            item.y = r.bbox.y;
            item.width = r.bbox.width;
            item.height = r.bbox.height;
            item.font_name = Some("OCR".to_string());
            out.push(item);
            assert(out@.take(kept.len() as int) =~= before.take(kept.len() as int));
            assert forall|k: int| 0 <= k < genuine(results@, i + 1).len() implies is_ocr_item(
                #[trigger] out@[kept.len() + k],
                genuine(results@, i + 1)[k],
            ) by {
                if k < genuine(results@, i as int).len() {
                    assert(out@[kept.len() + k] == before[kept.len() + k]);
                }
            }
        }
        i += 1;
    }
    out
}

/// Whether the `i`th reading makes the page after it of the page before it: a
/// reading of another page changes nothing.
pub open spec fn reading_step(chain: Seq<Page>, outcomes: Seq<PageOcrOutcome>, i: int) -> bool {
    let (before, after) = (chain[i], chain[i + 1]);
    if outcomes[i].page_number == before.page_number {
        &&& is_merged(before.text_items@, after.text_items@, outcomes[i])
        &&& after == (Page { text_items: after.text_items, ..before })
    } else {
        after == before
    }
}

/// Whether a page goes through a chain of readings.
pub open spec fn is_chain(chain: Seq<Page>, outcomes: Seq<PageOcrOutcome>) -> bool {
    &&& chain.len() == outcomes.len() + 1
    &&& forall|i: int| 0 <= i < outcomes.len() ==> #[trigger] reading_step(chain, outcomes, i)
}

/// Whether `after` is what some readings, one after the other, make of `before`.
pub open spec fn is_read(before: Page, after: Page, outcomes: Seq<PageOcrOutcome>) -> bool {
    exists|chain: Seq<Page>| #[trigger]
        is_chain(chain, outcomes) && chain[0] == before && chain.last() == after
}

fn all_failed(outcomes: &Vec<PageOcrOutcome>) -> (r: bool)
    ensures
        r == nothing_read(outcomes@),
{
    let mut unusable = false;
    let mut i: usize = 0;
    while i < outcomes.len()
        invariant
            i <= outcomes@.len(),
            forall|k: int| 0 <= k < i ==> (#[trigger] outcomes@[k]).results is Err,
            unusable == exists|k: int| 0 <= k < i && !(#[trigger] outcomes@[k]).native_usable,
        decreases outcomes@.len() - i,
    {
        match &outcomes[i].results {
            Ok(_) => {
                assert(outcomes@[i as int].results is Ok);
                return false;
            },
            Err(_) => {},
        }
        if !outcomes[i].native_usable {
            assert(!outcomes@[i as int].native_usable);
            unusable = true;
        }
        i += 1;
    }
    unusable
}

fn merge_all(page: Page, outcomes: &Vec<PageOcrOutcome>) -> (r: Page)
    ensures
        is_read(page, r, outcomes@),
{
    let number: usize = page.page_number;
    let ghost mut chain: Seq<Page> = seq![page];
    let mut now = page;
    let mut i: usize = 0;
    while i < outcomes.len()
        invariant
            i <= outcomes@.len(),
            chain.len() == i + 1,
            chain[0] == page,
            chain[i as int] == now,
            number == now.page_number,
            forall|k: int| 0 <= k < i ==> #[trigger] reading_step(chain, outcomes@, k),
        decreases outcomes@.len() - i,
    {
        let ghost before = chain;
        if outcomes[i].page_number == number {
            let Page {
                page_number,
                page_width,
                page_height,
                content_bounds,
                text_items,
                annotations,
                extras,
            } = now;
            now =
            Page {
                page_number,
                page_width,
                page_height,
                content_bounds,
                text_items: merge_page(text_items, &outcomes[i]),
                annotations,
                extras,
            };
        }
        proof {
            chain = before.push(now);
            assert forall|k: int| 0 <= k < i + 1 implies #[trigger] reading_step(
                chain,
                outcomes@,
                k,
            ) by {
                assert(chain[k] == before[k]);
                if k < i {
                    assert(reading_step(before, outcomes@, k));
                    assert(chain[k + 1] == before[k + 1]);
                }
            }
        }
        i += 1;
    }
    assert(is_chain(chain, outcomes@));
    now
}

/// Adds what was read off pictures to the texts of their pages. A page's own
/// texts go where they cannot be used, and noise is left out. It fails only
/// where that is wanted, every reading failed, and one of them was of a page
/// whose own text cannot be used.
pub fn merge_ocr(
    pages: &mut Vec<Page>,
    outcomes: Vec<PageOcrOutcome>,
    ocr_failure_fatal: bool,
) -> (r: Result<(), LiteParseError>)
    ensures
        match r {
            Ok(_) => {
                &&& !(ocr_failure_fatal && nothing_read(outcomes@))
                &&& final(pages)@.len() == old(pages)@.len()
                &&& forall|p: int|
                    0 <= p < old(pages)@.len() ==> is_read(
                        old(pages)@[p],
                        #[trigger] final(pages)@[p],
                        outcomes@,
                    )
            },
            Err(e) => {
                &&& ocr_failure_fatal && nothing_read(outcomes@)
                &&& e.says("OCR failed on every page"@)
                &&& final(pages)@ == old(pages)@
            },
        },
{
    if ocr_failure_fatal && all_failed(&outcomes) {
        return Err(LiteParseError::Other("OCR failed on every page".to_string()));
    }
    let ghost all = pages@;
    let mut taken: Vec<Page> = Vec::new();
    std::mem::swap(pages, &mut taken);
    let mut out: Vec<Page> = Vec::new();
    for page in it: taken
        invariant
            it.seq() == all,
            out@.len() == it.index(),
            forall|p: int|
                0 <= p < out@.len() ==> is_read(all[p], #[trigger] out@[p], outcomes@),
        {
        out.push(merge_all(page, &outcomes));
    }
    *pages = out;
    Ok(())
}

/// A page that no picture was read of stays as it is.
pub proof fn unread_pages_stay(before: Page, after: Page, outcomes: Seq<PageOcrOutcome>)
    requires
        is_read(before, after, outcomes),
        forall|i: int|
            0 <= i < outcomes.len() ==> (#[trigger] outcomes[i]).page_number != before.page_number
                || outcomes[i].results is Err,
    ensures
        after.text_items@ == before.text_items@,
        after == (Page { text_items: after.text_items, ..before }),
{
    let chain = choose|chain: Seq<Page>| #[trigger]
        is_chain(chain, outcomes) && chain[0] == before && chain.last() == after;
    lemma_unread(chain, outcomes, outcomes.len() as int);
}

proof fn lemma_unread(chain: Seq<Page>, outcomes: Seq<PageOcrOutcome>, n: int)
    requires
        is_chain(chain, outcomes),
        0 <= n <= outcomes.len(),
        forall|i: int|
            0 <= i < outcomes.len() ==> (#[trigger] outcomes[i]).page_number
                != chain[0].page_number || outcomes[i].results is Err,
    ensures
        chain[n].text_items@ == chain[0].text_items@,
        chain[n] == (Page { text_items: chain[n].text_items, ..chain[0] }),
    decreases n,
{
    if n > 0 {
        lemma_unread(chain, outcomes, n - 1);
        assert(reading_step(chain, outcomes, n - 1));
        assert(outcomes[n - 1].page_number != chain[0].page_number || outcomes[n - 1].results is Err);
    }
}

// ── Content filters ────────────────────────────────────────────────────

/// Which texts a caller wants to see.
#[derive(Clone, Copy, Debug)]
pub struct ContentFilters<'a> {
    /// Only texts that lie inside what is left of the page.
    pub crop_box: Option<&'a CropBox>,
    /// No skewed texts, such as watermarks and stamps.
    pub skip_diagonal_text: bool,
}

impl<'a> Default for ContentFilters<'a> {
    /// Every text.
    fn default() -> (r: ContentFilters<'a>)
        ensures
            r.crop_box is None,
            !r.skip_diagonal_text,
    {
        ContentFilters { crop_box: None, skip_diagonal_text: false }
    }
}

/// Whether a text lies entirely inside what is left of a page.
pub open spec fn inside(item: TextItem, crop: CropBox, width: Pt, height: Pt) -> bool {
    &&& 1_000_000 * item.x.emu >= crop.left * width.emu
    &&& 1_000_000 * (item.x.emu + item.width.emu) <= (1_000_000 - crop.right) * width.emu
    &&& 1_000_000 * item.y.emu >= crop.top * height.emu
    &&& 1_000_000 * (item.y.emu + item.height.emu) <= (1_000_000 - crop.bottom) * height.emu
}

/// Whether a text is turned by anything but a number of right angles.
pub open spec fn skewed(item: TextItem) -> bool {
    item.rotation.units as int % 5_400_000 != 0
}

/// Whether a text passes the filters.
pub open spec fn passes(item: TextItem, page: Page, filters: ContentFilters) -> bool {
    &&& filters.crop_box matches Some(crop) ==> inside(
        item,
        *crop,
        page.page_width,
        page.page_height,
    )
    &&& !(filters.skip_diagonal_text && skewed(item))
}

/// Those of the first `n` texts of a page that pass the filters.
pub open spec fn passing(page: Page, filters: ContentFilters, n: int) -> Seq<TextItem>
    decreases n,
{
    if n <= 0 {
        seq![]
    } else if passes(page.text_items@[n - 1], page, filters) {
        passing(page, filters, n - 1).push(page.text_items@[n - 1])
    } else {
        passing(page, filters, n - 1)
    }
}

/// Whether `after` is `before` with only the texts that pass the filters.
pub open spec fn is_filtered(before: Page, after: Page, filters: ContentFilters) -> bool {
    &&& after.text_items@ == passing(before, filters, before.text_items@.len() as int)
    &&& after == (Page { text_items: after.text_items, ..before })
}

fn product(a: i128, b: i64) -> (r: i128)
    requires
        -0x8000_0000_0010_0000 <= a <= 0x8000_0000_0010_0000,
    ensures
        r == a * b,
{
    assert(-0x6000_0000_0000_0000_0000_0000_0000_0000 <= a * b
        <= 0x6000_0000_0000_0000_0000_0000_0000_0000) by (nonlinear_arith)
        requires
            -0x8000_0000_0010_0000 <= a <= 0x8000_0000_0010_0000,
            -0x8000_0000_0000_0000 <= b <= 0x7fff_ffff_ffff_ffff,
    ;
    a * (b as i128)
}

fn is_inside(item: &TextItem, crop: &CropBox, width: Pt, height: Pt) -> (r: bool)
    ensures
        r == inside(*item, *crop, width, height),
{
    let x: i128 = item.x.emu as i128;
    let y: i128 = item.y.emu as i128;
    let right: i128 = x + item.width.emu as i128;
    let bottom: i128 = y + item.height.emu as i128;
    let keep_right: i128 = 1_000_000 - crop.right as i128;
    let keep_bottom: i128 = 1_000_000 - crop.bottom as i128;
    1_000_000 * x >= product(crop.left as i128, width.emu) && 1_000_000 * right <= product(
        keep_right,
        width.emu,
    ) && 1_000_000 * y >= product(crop.top as i128, height.emu) && 1_000_000 * bottom <= product(
        keep_bottom,
        height.emu,
    )
}

fn is_skewed(item: &TextItem) -> (r: bool)
    ensures
        r == skewed(*item),
{
    item.rotation.units % 5_400_000 != 0
}

fn filter_page(page: Page, filters: &ContentFilters) -> (r: Page)
    ensures
        is_filtered(page, r, *filters),
{
    let ghost first = page;
    let Page {
        page_number,
        page_width,
        page_height,
        content_bounds,
        text_items,
        annotations,
        extras,
    } = page;
    let ghost all = text_items@;
    let mut kept: Vec<TextItem> = Vec::new();
    for item in it: text_items
        invariant
            it.seq() == all,
            all == first.text_items@,
            page_width == first.page_width,
            page_height == first.page_height,
            kept@ == passing(first, *filters, it.index() as int),
        {
        let fits = match filters.crop_box {
            Some(crop) => is_inside(&item, crop, page_width, page_height),
            None => true,
        };
        if fits && !(filters.skip_diagonal_text && is_skewed(&item)) {
            kept.push(item);
        }
    }
    Page {
        page_number,
        page_width,
        page_height,
        content_bounds,
        text_items: kept,
        annotations,
        extras,
    }
}

/// Takes the texts off the pages that do not pass the filters. This comes after
/// [`merge_ocr`], so that what was read off pictures is filtered too, and before
/// [`project`], so that what was taken off appears nowhere.
pub fn apply_content_filters(pages: &mut Vec<Page>, filters: &ContentFilters)
    ensures
        final(pages)@.len() == old(pages)@.len(),
        forall|p: int|
            0 <= p < old(pages)@.len() ==> is_filtered(
                old(pages)@[p],
                #[trigger] final(pages)@[p],
                *filters,
            ),
{
    let ghost all = pages@;
    let mut taken: Vec<Page> = Vec::new();
    std::mem::swap(pages, &mut taken);
    let mut out: Vec<Page> = Vec::new();
    for page in it: taken
        invariant
            it.seq() == all,
            out@.len() == it.index(),
            forall|p: int|
                0 <= p < out@.len() ==> is_filtered(all[p], #[trigger] out@[p], *filters),
        {
        out.push(filter_page(page, filters));
    }
    *pages = out;
}

/// Where no filter is asked for, no text goes.
pub proof fn no_filter_keeps_everything(before: Page, after: Page, filters: ContentFilters)
    requires
        is_filtered(before, after, filters),
        filters.crop_box is None,
        !filters.skip_diagonal_text,
    ensures
        after.text_items@ == before.text_items@,
{
    lemma_all_pass(before, filters, before.text_items@.len() as int);
    assert(before.text_items@.take(before.text_items@.len() as int) =~= before.text_items@);
}

proof fn lemma_all_pass(page: Page, filters: ContentFilters, n: int)
    requires
        0 <= n <= page.text_items@.len(),
        forall|i: int|
            0 <= i < page.text_items@.len() ==> passes(
                #[trigger] page.text_items@[i],
                page,
                filters,
            ),
    ensures
        passing(page, filters, n) == page.text_items@.take(n),
    decreases n,
{
    if n > 0 {
        lemma_all_pass(page, filters, n - 1);
        assert(passes(page.text_items@[n - 1], page, filters));
        assert(page.text_items@.take(n) =~= page.text_items@.take(n - 1).push(
            page.text_items@[n - 1],
        ));
    } else {
        assert(page.text_items@.take(0) =~= Seq::<TextItem>::empty());
    }
}

/// Filtering a page a second time changes nothing more.
pub proof fn filtering_twice_is_filtering_once(
    before: Page,
    once: Page,
    twice: Page,
    filters: ContentFilters,
)
    requires
        is_filtered(before, once, filters),
        is_filtered(once, twice, filters),
    ensures
        twice.text_items@ == once.text_items@,
{
    lemma_passing_pass(before, filters, before.text_items@.len() as int);
    assert forall|i: int| 0 <= i < once.text_items@.len() implies passes(
        #[trigger] once.text_items@[i],
        once,
        filters,
    ) by {
        assert(passes(once.text_items@[i], before, filters));
    }
    lemma_all_pass(once, filters, once.text_items@.len() as int);
    assert(once.text_items@.take(once.text_items@.len() as int) =~= once.text_items@);
}

proof fn lemma_passing_pass(page: Page, filters: ContentFilters, n: int)
    requires
        0 <= n <= page.text_items@.len(),
    ensures
        forall|i: int|
            0 <= i < passing(page, filters, n).len() ==> passes(
                #[trigger] passing(page, filters, n)[i],
                page,
                filters,
            ),
    decreases n,
{
    if n > 0 {
        lemma_passing_pass(page, filters, n - 1);
        let before = passing(page, filters, n - 1);
        assert forall|i: int| 0 <= i < passing(page, filters, n).len() implies passes(
            #[trigger] passing(page, filters, n)[i],
            page,
            filters,
        ) by {
            if i < before.len() {
                assert(passing(page, filters, n)[i] == before[i]);
            }
        }
    }
}

// ── Projection ─────────────────────────────────────────────────────────

/// The text of a page as it stands on the page's grid.
#[derive(Debug)]
pub struct GridText {
    pub text: String,
    pub lines: Vec<String>,
    /// The regions and figures that the lines stand in, by number.
    pub regions: Vec<usize>,
    pub figures: Vec<usize>,
}

/// Whether a parsed page is a page with its text laid out on a grid.
pub open spec fn is_projected<P: Fn(&Page) -> GridText>(
    page: Page,
    parsed: ParsedPage,
    grid: P,
) -> bool {
    &&& call_ensures(
        grid,
        (&page,),
        (GridText {
            text: parsed.text,
            lines: parsed.projected_lines,
            regions: parsed.regions,
            figures: parsed.figures,
        }),
    )
    &&& parsed.page_number == page.page_number
    &&& parsed.page_width == page.page_width
    &&& parsed.page_height == page.page_height
    &&& parsed.content_bounds == page.content_bounds
    &&& parsed.markdown@ == Seq::<char>::empty()
    &&& parsed.text_items == page.text_items
    &&& parsed.complexity is None
    &&& parsed.blocks is None
    &&& parsed.annotations == page.annotations
    &&& parsed.extras == page.extras
}

/// Lays the text of each page out on a grid. Pages are projected one by one, so
/// any of them can be; everything else that is known of them stays.
pub fn project<P: Fn(&Page) -> GridText>(pages: Vec<Page>, grid: &P) -> (r: Vec<ParsedPage>)
    requires
        forall|p: &Page| call_requires(*grid, (p,)),
    ensures
        r@.len() == pages@.len(),
        forall|p: int|
            0 <= p < r@.len() ==> is_projected(pages@[p], #[trigger] r@[p], *grid),
{
    let ghost all = pages@;
    let mut out: Vec<ParsedPage> = Vec::new();
    for page in it: pages
        invariant
            it.seq() == all,
            forall|p: &Page| call_requires(*grid, (p,)),
            out@.len() == it.index(),
            forall|p: int|
                0 <= p < out@.len() ==> is_projected(all[p], #[trigger] out@[p], *grid),
        {
        let laid = grid(&page);
        let GridText { text, lines, regions, figures } = laid;
        let Page {
            page_number,
            page_width,
            page_height,
            content_bounds,
            text_items,
            annotations,
            extras,
        } = page;
        out.push(
            ParsedPage {
                page_number,
                page_width,
                page_height,
                content_bounds,
                text,
                markdown: String::new(),
                text_items,
                projected_lines: lines,
                regions,
                figures,
                complexity: None,
                blocks: None,
                annotations,
                extras,
            },
        );
    }
    out
}

// ── Complexity ─────────────────────────────────────────────────────────

/// How many of some statistics the first `n` pages take: each page takes the
/// next one, where it is that of the page.
pub open spec fn taken_upto(pages: Seq<ParsedPage>, stats: Seq<PageComplexityStats>, n: int) -> int
    decreases n,
{
    if n <= 0 {
        0
    } else {
        let k = taken_upto(pages, stats, n - 1);
        if k < stats.len() && stats[k].page_number == pages[n - 1].page_number {
            k + 1
        } else {
            k
        }
    }
}

/// Whether the `p`th page takes one of some statistics.
pub open spec fn takes(pages: Seq<ParsedPage>, stats: Seq<PageComplexityStats>, p: int) -> bool {
    let k = taken_upto(pages, stats, p);
    k < stats.len() && stats[k].page_number == pages[p].page_number
}

/// Whether `after` is the `p`th page with its statistics, and with what
/// `measure` says of its layout in them.
pub open spec fn is_rated<L: Fn(&ParsedPage) -> LayoutComplexityStats>(
    pages: Seq<ParsedPage>,
    stats: Seq<PageComplexityStats>,
    p: int,
    after: ParsedPage,
    measure: L,
) -> bool {
    if takes(pages, stats, p) {
        &&& after.complexity matches Some(s) && s.layout matches Some(l) && s == (
            PageComplexityStats { layout: s.layout, ..stats[taken_upto(pages, stats, p)] })
            && call_ensures(measure, (&pages[p],), l)
        &&& after == (ParsedPage { complexity: after.complexity, ..pages[p] })
    } else {
        after == pages[p]
    }
}

/// Adds to each page how hard it is to read.
pub fn attach_complexity<L: Fn(&ParsedPage) -> LayoutComplexityStats>(
    pages: Vec<ParsedPage>,
    stats: &Vec<PageComplexityStats>,
    measure: &L,
) -> (r: Vec<ParsedPage>)
    requires
        forall|p: &ParsedPage| call_requires(*measure, (p,)),
    ensures
        r@.len() == pages@.len(),
        forall|p: int|
            0 <= p < r@.len() ==> is_rated(pages@, stats@, p, #[trigger] r@[p], *measure),
{
    let ghost all = pages@;
    let mut out: Vec<ParsedPage> = Vec::new();
    let mut next: usize = 0;
    for page in it: pages
        invariant
            it.seq() == all,
            forall|p: &ParsedPage| call_requires(*measure, (p,)),
            next <= stats@.len(),
            next == taken_upto(all, stats@, it.index() as int),
            out@.len() == it.index(),
            forall|p: int|
                0 <= p < out@.len() ==> is_rated(all, stats@, p, #[trigger] out@[p], *measure),
        {
        let mut page = page;
        if next < stats.len() && stats[next].page_number == page.page_number {
            let layout = measure(&page);
            let mut s = stats[next];
            s.layout = Some(layout);
            page.complexity = Some(s);
            next += 1;
        }
        out.push(page);
    }
    out
}

/// Where there are statistics for every page in order, every page takes its own.
pub proof fn aligned_pages_take_their_own(
    pages: Seq<ParsedPage>,
    stats: Seq<PageComplexityStats>,
    p: int,
)
    requires
        stats.len() == pages.len(),
        forall|i: int|
            0 <= i < pages.len() ==> (#[trigger] stats[i]).page_number == pages[i].page_number,
        0 <= p < pages.len(),
    ensures
        takes(pages, stats, p),
        taken_upto(pages, stats, p) == p,
    decreases p,
{
    if p > 0 {
        aligned_pages_take_their_own(pages, stats, p - 1);
    }
    assert(stats[p].page_number == pages[p].page_number);
}

/// Adds to each page's statistics how hard its layout is, for as many pages as
/// there are of both.
pub fn attach_layout<L: Fn(&ParsedPage) -> LayoutComplexityStats>(
    stats: &mut Vec<PageComplexityStats>,
    pages: &Vec<ParsedPage>,
    measure: &L,
)
    requires
        forall|p: &ParsedPage| call_requires(*measure, (p,)),
    ensures
        final(stats)@.len() == old(stats)@.len(),
        forall|i: int|
            0 <= i < old(stats)@.len() ==> {
                let s = #[trigger] final(stats)@[i];
                if i < pages@.len() {
                    s.layout matches Some(l) && s == (PageComplexityStats {
                        layout: s.layout,
                        ..old(stats)@[i]
                    }) && call_ensures(*measure, (&pages@[i],), l)
                } else {
                    s == old(stats)@[i]
                }
            },
{
    let n: usize = stats.len();
    let mut i: usize = 0;
    while i < n && i < pages.len()
        invariant
            i <= n,
            i <= pages@.len(),
            n == stats@.len() == old(stats)@.len(),
            forall|p: &ParsedPage| call_requires(*measure, (p,)),
            forall|k: int|
                0 <= k < i ==> {
                    let s = #[trigger] stats@[k];
                    s.layout matches Some(l) && s == (PageComplexityStats {
                        layout: s.layout,
                        ..old(stats)@[k]
                    }) && call_ensures(*measure, (&pages@[k],), l)
                },
            forall|k: int| i <= k < n ==> #[trigger] stats@[k] == old(stats)@[k],
        decreases n - i,
    {
        let mut s = stats[i];
        assert(s == old(stats)@[i as int]);
        s.layout = Some(measure(&pages[i]));
        stats.set(i, s);
        i += 1;
    }
}

// ── Blocks ─────────────────────────────────────────────────────────────

/// What is known of a document as a whole when its pages are taken apart into
/// blocks: neither the rank of a heading nor a running header can be told from
/// one page alone.
#[derive(Debug)]
pub struct DocumentSignals {
    /// The size of the body text; 0 where no line has a size.
    pub body_size: Pt,
    /// Font sizes and the heading levels that they stand for, largest first.
    pub heading_map: Vec<(Pt, u8)>,
    /// The texts of running headers and footers to leave out.
    pub header_footer: HashSet<String>,
}

/// Whether some signals are those of a document: nothing where it has no pages,
/// and no running headers and footers where they are kept.
pub open spec fn are_signals<
    B: Fn(&Vec<ParsedPage>) -> Pt,
    H: Fn(&Vec<ParsedPage>, Pt) -> Vec<(Pt, u8)>,
    C: Fn(&Vec<ParsedPage>) -> HashSet<String>,
>(
    r: DocumentSignals,
    pages: Vec<ParsedPage>,
    keep_headers_footers: bool,
    body_size: B,
    heading_map: H,
    running_texts: C,
) -> bool {
    if pages@.len() == 0 {
        &&& r.body_size == Pt::spec_zero()
        &&& r.heading_map@.len() == 0
        &&& r.header_footer@ == Set::<String>::empty()
    } else {
        &&& call_ensures(body_size, (&pages,), r.body_size)
        &&& call_ensures(heading_map, (&pages, r.body_size), r.heading_map)
        &&& if keep_headers_footers {
            r.header_footer@ == Set::<String>::empty()
        } else {
            call_ensures(running_texts, (&pages,), r.header_footer)
        }
    }
}

/// What is known of a document as a whole: nothing where it has no pages, and no
/// running headers and footers where they are kept.
pub fn document_signals<
    B: Fn(&Vec<ParsedPage>) -> Pt,
    H: Fn(&Vec<ParsedPage>, Pt) -> Vec<(Pt, u8)>,
    C: Fn(&Vec<ParsedPage>) -> HashSet<String>,
>(
    pages: &Vec<ParsedPage>,
    keep_headers_footers: bool,
    body_size: &B,
    heading_map: &H,
    running_texts: &C,
) -> (r: DocumentSignals)
    requires
        call_requires(*body_size, (pages,)),
        forall|size: Pt| call_requires(*heading_map, (pages, size)),
        call_requires(*running_texts, (pages,)),
    ensures
        are_signals(r, *pages, keep_headers_footers, *body_size, *heading_map, *running_texts),
        pages@.len() > 0 && ranks_headings(*heading_map, *pages) ==> is_heading_map(r.heading_map@),
        pages@.len() == 0 ==> is_heading_map(r.heading_map@),
{
    if pages.len() == 0 {
        return DocumentSignals {
            body_size: Pt::zero(),
            heading_map: Vec::new(),
            header_footer: HashSet::new(),
        };
    }
    let size = body_size(pages);
    let map = heading_map(pages, size);
    let header_footer = if keep_headers_footers {
        HashSet::new()
    } else {
        running_texts(pages)
    };
    DocumentSignals { body_size: size, heading_map: map, header_footer }
}

/// Whether running headers and footers are kept or left out, the size of the body
/// text and the heading levels are the same, as long as the measures of them
/// answer the same when asked the same; and where they are kept, none of their
/// texts is known.
pub proof fn kept_headers_change_no_measure<
    B: Fn(&Vec<ParsedPage>) -> Pt,
    H: Fn(&Vec<ParsedPage>, Pt) -> Vec<(Pt, u8)>,
    C: Fn(&Vec<ParsedPage>) -> HashSet<String>,
>(
    pages: Vec<ParsedPage>,
    kept: DocumentSignals,
    dropped: DocumentSignals,
    body_size: B,
    heading_map: H,
    running_texts: C,
)
    requires
        are_signals(kept, pages, true, body_size, heading_map, running_texts),
        are_signals(dropped, pages, false, body_size, heading_map, running_texts),
        forall|a: Pt, b: Pt| #[trigger]
            call_ensures(body_size, (&pages,), a) && #[trigger] call_ensures(
                body_size,
                (&pages,),
                b,
            ) ==> a == b,
        forall|size: Pt, a: Vec<(Pt, u8)>, b: Vec<(Pt, u8)>| #[trigger]
            call_ensures(heading_map, (&pages, size), a) && #[trigger] call_ensures(
                heading_map,
                (&pages, size),
                b,
            ) ==> a@ == b@,
    ensures
        kept.body_size == dropped.body_size,
        kept.heading_map@ == dropped.heading_map@,
        kept.header_footer@ == Set::<String>::empty(),
{
    if pages@.len() == 0 {
        assert(kept.heading_map@ =~= dropped.heading_map@);
    }
}

/// Whether font sizes stand for heading levels as they do in a document: the
/// largest first, and each for one of the six levels.
pub open spec fn is_heading_map(map: Seq<(Pt, u8)>) -> bool {
    &&& forall|i: int, j: int|
        0 <= i < j < map.len() ==> (#[trigger] map[i]).0.emu >= (#[trigger] map[j]).0.emu
    &&& forall|i: int| 0 <= i < map.len() ==> 1 <= (#[trigger] map[i]).1 <= 6
}

/// Whether a measure gives heading levels in their order.
pub open spec fn ranks_headings<H: Fn(&Vec<ParsedPage>, Pt) -> Vec<(Pt, u8)>>(
    heading_map: H,
    pages: Vec<ParsedPage>,
) -> bool {
    forall|size: Pt, m: Vec<(Pt, u8)>| #[trigger]
        call_ensures(heading_map, (&pages, size), m) ==> is_heading_map(m@)
}

/// The heading levels of a document have the largest size first and are levels
/// from 1 to 6, as long as the measure of them gives such ones. Those of a
/// document without pages, which has none, do in any case.
pub proof fn heading_levels_stay_in_order<
    B: Fn(&Vec<ParsedPage>) -> Pt,
    H: Fn(&Vec<ParsedPage>, Pt) -> Vec<(Pt, u8)>,
    C: Fn(&Vec<ParsedPage>) -> HashSet<String>,
>(
    pages: Vec<ParsedPage>,
    keep_headers_footers: bool,
    r: DocumentSignals,
    body_size: B,
    heading_map: H,
    running_texts: C,
)
    requires
        are_signals(r, pages, keep_headers_footers, body_size, heading_map, running_texts),
        pages@.len() > 0 ==> ranks_headings(heading_map, pages),
    ensures
        is_heading_map(r.heading_map@),
{
}

/// How the pages of a document are taken apart into blocks.
#[derive(Clone, Copy, Debug)]
pub struct BlockOptions<'a> {
    /// The outline, whose entries are likely headings.
    pub outline: &'a Vec<OutlineTarget>,
    /// Whether and how figures appear among the blocks.
    pub image_mode: ImageMode,
    pub keep_headers_footers: bool,
}

/// A block and where it stands.
#[derive(Debug)]
pub struct PositionedBlock {
    pub block: Block,
    pub bbox: Option<Rect>,
}

/// The first `n` outline entries of a page.
pub open spec fn page_outline(outline: Seq<OutlineTarget>, page_number: usize, n: int) -> Seq<
    OutlineTarget,
>
    decreases n,
{
    if n <= 0 {
        seq![]
    } else if outline[n - 1].page_index == page_number - 1 {
        page_outline(outline, page_number, n - 1).push(outline[n - 1])
    } else {
        page_outline(outline, page_number, n - 1)
    }
}

/// The outline entries of a page.
pub fn outline_of_page(outline: &Vec<OutlineTarget>, page_number: usize) -> (r: Vec<OutlineTarget>)
    ensures
        r@ == page_outline(outline@, page_number, outline@.len() as int),
{
    let target: i128 = page_number as i128 - 1;
    let mut out: Vec<OutlineTarget> = Vec::new();
    let mut i: usize = 0;
    while i < outline.len()
        invariant
            i <= outline@.len(),
            target == page_number - 1,
            out@ == page_outline(outline@, page_number, i as int),
        decreases outline@.len() - i,
    {
        if outline[i].page_index as i128 == target {
            out.push(outline[i].clone());
        }
        i += 1;
    }
    out
}

/// Whether a block is a rule.
pub open spec fn is_rule(b: PositionedBlock) -> bool {
    b.block is HorizontalRule
}

/// Whether a block says anything: rules and figures alone do not.
pub open spec fn says_something(b: PositionedBlock) -> bool {
    !(b.block is HorizontalRule) && !(b.block is Figure)
}

/// The first `n` blocks that are no rules.
pub open spec fn without_rules(blocks: Seq<PositionedBlock>, n: int) -> Seq<PositionedBlock>
    decreases n,
{
    if n <= 0 {
        seq![]
    } else if is_rule(blocks[n - 1]) {
        without_rules(blocks, n - 1)
    } else {
        without_rules(blocks, n - 1).push(blocks[n - 1])
    }
}

/// The blocks of a page, without its rules where nothing else is left on it but
/// figures.
pub open spec fn bare_rules_dropped(blocks: Seq<PositionedBlock>) -> Seq<PositionedBlock> {
    if exists|i: int| 0 <= i < blocks.len() && says_something(#[trigger] blocks[i]) {
        blocks
    } else {
        without_rules(blocks, blocks.len() as int)
    }
}

/// Drops the rules of a page on which nothing else is left but figures, so that
/// it shows nothing, not a stack of rules.
pub fn drop_bare_rules(blocks: Vec<PositionedBlock>) -> (r: Vec<PositionedBlock>)
    ensures
        r@ == bare_rules_dropped(blocks@),
{
    let ghost all = blocks@;
    let mut i: usize = 0;
    while i < blocks.len()
        invariant
            i <= blocks@.len(),
            blocks@ == all,
            forall|k: int| 0 <= k < i ==> !says_something(#[trigger] blocks@[k]),
        decreases blocks@.len() - i,
    {
        match &blocks[i].block {
            Block::HorizontalRule | Block::Figure { .. } => {},
            _ => {
                assert(says_something(blocks@[i as int]));
                return blocks;
            },
        }
        i += 1;
    }
    let mut out: Vec<PositionedBlock> = Vec::new();
    for b in it: blocks
        invariant
            it.seq() == all,
            out@ == without_rules(all, it.index() as int),
        {
        let rule = match &b.block {
            Block::HorizontalRule => true,
            _ => false,
        };
        if !rule {
            out.push(b);
        }
    }
    out
}

/// Whether some blocks are those of a page: what `classify` makes of it with
/// the outline entries of the page, the way that figures are shown and the lines
/// that `detect` takes for running text, without bare rules, and then tidied up.
pub open spec fn are_page_blocks<
    D: Fn(&ParsedPage, Pt) -> HashSet<usize>,
    C: Fn(
        &ParsedPage,
        &DocumentSignals,
        &Vec<OutlineTarget>,
        ImageMode,
        &HashSet<usize>,
    ) -> Vec<PositionedBlock>,
    T: Fn(Vec<PositionedBlock>) -> Vec<PositionedBlock>,
>(
    out: Vec<PositionedBlock>,
    page: ParsedPage,
    signals: DocumentSignals,
    options: BlockOptions,
    detect: D,
    classify: C,
    tidy: T,
) -> bool {
    exists|
        entries: Vec<OutlineTarget>,
        chrome: HashSet<usize>,
        raw: Vec<PositionedBlock>,
        kept: Vec<PositionedBlock>,
    |
        {
            &&& entries@ == page_outline(
                options.outline@,
                page.page_number,
                options.outline@.len() as int,
            )
            &&& if options.keep_headers_footers {
                chrome@ == Set::<usize>::empty()
            } else {
                call_ensures(detect, (&page, signals.body_size), chrome)
            }
            &&& #[trigger] call_ensures(
                classify,
                (&page, &signals, &entries, options.image_mode, &chrome),
                raw,
            )
            &&& kept@ == bare_rules_dropped(raw@)
            &&& #[trigger] call_ensures(tidy, (kept,), out)
        }
}

/// Takes a projected page apart into its blocks. A page without any lines has no
/// structure to report.
pub fn extract_blocks<
    D: Fn(&ParsedPage, Pt) -> HashSet<usize>,
    C: Fn(
        &ParsedPage,
        &DocumentSignals,
        &Vec<OutlineTarget>,
        ImageMode,
        &HashSet<usize>,
    ) -> Vec<PositionedBlock>,
    T: Fn(Vec<PositionedBlock>) -> Vec<PositionedBlock>,
>(
    page: &ParsedPage,
    signals: &DocumentSignals,
    options: &BlockOptions,
    detect: &D,
    classify: &C,
    tidy: &T,
) -> (r: Option<Vec<PositionedBlock>>)
    requires
        call_requires(*detect, (page, signals.body_size)),
        forall|o: &Vec<OutlineTarget>, m: ImageMode, c: &HashSet<usize>|
            call_requires(*classify, (page, signals, o, m, c)),
        forall|b: Vec<PositionedBlock>| call_requires(*tidy, (b,)),
    ensures
        match r {
            Some(out) => page.projected_lines@.len() > 0 && are_page_blocks(
                out,
                *page,
                *signals,
                *options,
                *detect,
                *classify,
                *tidy,
            ),
            None => page.projected_lines@.len() == 0,
        },
        r matches Some(out) ==> tidies(*tidy) && !any_says_something(out@) ==> !any_rule(out@),
{
    if page.projected_lines.len() == 0 {
        return None;
    }
    let entries = outline_of_page(options.outline, page.page_number);
    let chrome: HashSet<usize> = if options.keep_headers_footers {
        HashSet::new()
    } else {
        detect(page, signals.body_size)
    };
    let raw = classify(page, signals, &entries, options.image_mode, &chrome);
    assert(call_ensures(
        *classify,
        (page, signals, &entries, options.image_mode, &chrome),
        raw,
    ));
    let kept = drop_bare_rules(raw);
    let out = tidy(kept);
    assert(call_ensures(*tidy, (kept,), out));
    proof {
        assert(are_page_blocks(out, *page, *signals, *options, *detect, *classify, *tidy));
        if tidies(*tidy) && !any_says_something(out@) {
            no_bare_rule_is_left(out, *page, *signals, *options, *detect, *classify, *tidy);
        }
    }
    Some(out)
}

/// The entries of a page that are picked from the entries of the page are these
/// entries.
proof fn lemma_page_outline_again(outline: Seq<OutlineTarget>, page_number: usize, n: int)
    requires
        0 <= n <= outline.len(),
    ensures
        ({
            let own = page_outline(outline, page_number, n);
            page_outline(own, page_number, own.len() as int) == own
        }),
    decreases n,
{
    if n > 0 {
        lemma_page_outline_again(outline, page_number, n - 1);
        let before = page_outline(outline, page_number, n - 1);
        if outline[n - 1].page_index == page_number - 1 {
            let own = before.push(outline[n - 1]);
            lemma_page_outline_of_prefix(own, before, page_number, before.len() as int);
        }
    }
}

/// Which entries of a page stand among the first few depends on these alone.
proof fn lemma_page_outline_of_prefix(
    a: Seq<OutlineTarget>,
    b: Seq<OutlineTarget>,
    page_number: usize,
    n: int,
)
    requires
        0 <= n <= a.len(),
        n <= b.len(),
        forall|i: int| 0 <= i < n ==> a[i] == b[i],
    ensures
        page_outline(a, page_number, n) == page_outline(b, page_number, n),
    decreases n,
{
    if n > 0 {
        lemma_page_outline_of_prefix(a, b, page_number, n - 1);
    }
}

/// The blocks of a page depend on no outline entries but its own: with the
/// outline cut down to these the same blocks come out.
pub proof fn other_outline_entries_do_not_matter<
    D: Fn(&ParsedPage, Pt) -> HashSet<usize>,
    C: Fn(
        &ParsedPage,
        &DocumentSignals,
        &Vec<OutlineTarget>,
        ImageMode,
        &HashSet<usize>,
    ) -> Vec<PositionedBlock>,
    T: Fn(Vec<PositionedBlock>) -> Vec<PositionedBlock>,
>(
    out: Vec<PositionedBlock>,
    page: ParsedPage,
    signals: DocumentSignals,
    whole: BlockOptions,
    own: BlockOptions,
    detect: D,
    classify: C,
    tidy: T,
)
    requires
        own.outline@ == page_outline(
            whole.outline@,
            page.page_number,
            whole.outline@.len() as int,
        ),
        own.image_mode == whole.image_mode,
        own.keep_headers_footers == whole.keep_headers_footers,
    ensures
        are_page_blocks(out, page, signals, own, detect, classify, tidy) <==> are_page_blocks(
            out,
            page,
            signals,
            whole,
            detect,
            classify,
            tidy,
        ),
{
    lemma_page_outline_again(whole.outline@, page.page_number, whole.outline@.len() as int);
}

/// None of the blocks that are left without rules is a rule.
proof fn lemma_no_rule_left(blocks: Seq<PositionedBlock>, n: int)
    requires
        0 <= n <= blocks.len(),
    ensures
        forall|i: int|
            0 <= i < without_rules(blocks, n).len() ==> !is_rule(
                #[trigger] without_rules(blocks, n)[i],
            ),
    decreases n,
{
    if n > 0 {
        lemma_no_rule_left(blocks, n - 1);
        let before = without_rules(blocks, n - 1);
        assert forall|i: int| 0 <= i < without_rules(blocks, n).len() implies !is_rule(
            #[trigger] without_rules(blocks, n)[i],
        ) by {
            if i < before.len() {
                assert(!is_rule(before[i]));
            }
        }
    }
}

/// Whether there is a rule among some blocks.
pub open spec fn any_rule(blocks: Seq<PositionedBlock>) -> bool {
    exists|i: int| 0 <= i < blocks.len() && is_rule(#[trigger] blocks[i])
}

/// Whether any of some blocks says anything.
pub open spec fn any_says_something(blocks: Seq<PositionedBlock>) -> bool {
    exists|i: int| 0 <= i < blocks.len() && says_something(#[trigger] blocks[i])
}

/// Whether tidying up makes no rule where there was none and leaves something of
/// what says something.
pub open spec fn tidies<T: Fn(Vec<PositionedBlock>) -> Vec<PositionedBlock>>(tidy: T) -> bool {
    forall|b: Vec<PositionedBlock>, t: Vec<PositionedBlock>| #[trigger]
        call_ensures(tidy, (b,), t) ==> (any_rule(t@) ==> any_rule(b@)) && (any_says_something(
            b@,
        ) ==> any_says_something(t@))
}

/// A page on which nothing is left but rules and figures has no rules, as long as
/// tidying up makes no rule where there was none and leaves something of what
/// says something.
pub proof fn no_bare_rule_is_left<
    D: Fn(&ParsedPage, Pt) -> HashSet<usize>,
    C: Fn(
        &ParsedPage,
        &DocumentSignals,
        &Vec<OutlineTarget>,
        ImageMode,
        &HashSet<usize>,
    ) -> Vec<PositionedBlock>,
    T: Fn(Vec<PositionedBlock>) -> Vec<PositionedBlock>,
>(
    out: Vec<PositionedBlock>,
    page: ParsedPage,
    signals: DocumentSignals,
    options: BlockOptions,
    detect: D,
    classify: C,
    tidy: T,
)
    requires
        are_page_blocks(out, page, signals, options, detect, classify, tidy),
        tidies(tidy),
        !any_says_something(out@),
    ensures
        !any_rule(out@),
{
    let (entries, chrome, raw, kept) = choose|
        entries: Vec<OutlineTarget>,
        chrome: HashSet<usize>,
        raw: Vec<PositionedBlock>,
        kept: Vec<PositionedBlock>,
    |
        {
            &&& #[trigger] call_ensures(
                classify,
                (&page, &signals, &entries, options.image_mode, &chrome),
                raw,
            )
            &&& kept@ == bare_rules_dropped(raw@)
            &&& #[trigger] call_ensures(tidy, (kept,), out)
        };
    assert(call_ensures(tidy, (kept,), out));
    assert(!any_says_something(kept@));
    lemma_no_rule_left(raw@, raw@.len() as int);
    if exists|i: int| 0 <= i < raw@.len() && says_something(#[trigger] raw@[i]) {
        let i = choose|i: int| 0 <= i < raw@.len() && says_something(#[trigger] raw@[i]);
        assert(says_something(kept@[i]));
    }
}

// ── Markdown ───────────────────────────────────────────────────────────

/// A text inside a fence.
pub open spec fn fenced(s: Seq<char>) -> Seq<char> {
    "```text\n"@ + s + (if s.len() > 0 && s.last() == '\n' {
        seq![]
    } else {
        seq!['\n']
    }) + "```"@
}

fn ends_with_newline(s: &String) -> (r: bool)
    ensures
        r == (s@.len() > 0 && s@.last() == '\n'),
{
    let chars = crate::text::chars_of(s.as_str());
    let n: usize = chars.len();
    n > 0 && chars[n - 1] == '\n'
}

/// The markdown of a page from its blocks. A page without structure shows its
/// text inside a fence, so that nothing is lost.
pub fn render_page_markdown<R: Fn(&Vec<PositionedBlock>) -> String>(
    page: &ParsedPage,
    blocks: &Option<Vec<PositionedBlock>>,
    render: &R,
) -> (r: String)
    requires
        forall|b: &Vec<PositionedBlock>| call_requires(*render, (b,)),
    ensures
        match *blocks {
            Some(b) => call_ensures(*render, (&b,), r),
            None => r@ == fenced(page.text@),
        },
{
    match blocks {
        Some(b) => render(b),
        None => {
            let mut out = String::new();
            crate::text::push_text(&mut out, "```text\n");
            crate::text::push_text(&mut out, page.text.as_str());
            if !ends_with_newline(&page.text) {
                out.push('\n');
            }
            crate::text::push_text(&mut out, "```");
            assert(out@ =~= fenced(page.text@));
            out
        },
    }
}

/// What markdown is made with: the measures of a whole document, how a page is
/// taken apart, and how its blocks are written.
pub struct MarkdownTools<B, H, C, D, K, T, R> {
    pub body_size: B,
    pub heading_map: H,
    pub running_texts: C,
    pub detect: D,
    pub classify: K,
    pub tidy: T,
    pub render: R,
}

/// Whether `md` is the markdown of a page: its blocks written out, or its text
/// inside a fence where it has no lines.
pub open spec fn is_page_markdown<
    D: Fn(&ParsedPage, Pt) -> HashSet<usize>,
    K: Fn(
        &ParsedPage,
        &DocumentSignals,
        &Vec<OutlineTarget>,
        ImageMode,
        &HashSet<usize>,
    ) -> Vec<PositionedBlock>,
    T: Fn(Vec<PositionedBlock>) -> Vec<PositionedBlock>,
    R: Fn(&Vec<PositionedBlock>) -> String,
>(
    md: String,
    page: ParsedPage,
    signals: DocumentSignals,
    options: BlockOptions,
    detect: D,
    classify: K,
    tidy: T,
    render: R,
) -> bool {
    if page.projected_lines@.len() == 0 {
        md@ == fenced(page.text@)
    } else {
        exists|blocks: Vec<PositionedBlock>|
            are_page_blocks(blocks, page, signals, options, detect, classify, tidy)
                && #[trigger] call_ensures(render, (&blocks,), md)
    }
}

/// Whether some texts are the markdown of the pages of a document, one for each,
/// made with the signals of the document as a whole.
pub open spec fn are_page_markdowns<
    B: Fn(&Vec<ParsedPage>) -> Pt,
    H: Fn(&Vec<ParsedPage>, Pt) -> Vec<(Pt, u8)>,
    C: Fn(&Vec<ParsedPage>) -> HashSet<String>,
    D: Fn(&ParsedPage, Pt) -> HashSet<usize>,
    K: Fn(
        &ParsedPage,
        &DocumentSignals,
        &Vec<OutlineTarget>,
        ImageMode,
        &HashSet<usize>,
    ) -> Vec<PositionedBlock>,
    T: Fn(Vec<PositionedBlock>) -> Vec<PositionedBlock>,
    R: Fn(&Vec<PositionedBlock>) -> String,
>(
    md: Seq<String>,
    pages: Vec<ParsedPage>,
    options: BlockOptions,
    tools: MarkdownTools<B, H, C, D, K, T, R>,
) -> bool {
    &&& md.len() == pages@.len()
    &&& exists|signals: DocumentSignals|
        {
            &&& #[trigger] are_signals(
                signals,
                pages,
                options.keep_headers_footers,
                tools.body_size,
                tools.heading_map,
                tools.running_texts,
            )
            &&& forall|p: int|
                0 <= p < md.len() ==> is_page_markdown(
                    #[trigger] md[p],
                    pages@[p],
                    signals,
                    options,
                    tools.detect,
                    tools.classify,
                    tools.tidy,
                    tools.render,
                )
        }
}

/// The markdown of the pages of a document, by the steps that are open to every
/// caller: the signals of the whole once, then the blocks of each page and their
/// text.
pub fn format_markdown_pages<
    B: Fn(&Vec<ParsedPage>) -> Pt,
    H: Fn(&Vec<ParsedPage>, Pt) -> Vec<(Pt, u8)>,
    C: Fn(&Vec<ParsedPage>) -> HashSet<String>,
    D: Fn(&ParsedPage, Pt) -> HashSet<usize>,
    K: Fn(
        &ParsedPage,
        &DocumentSignals,
        &Vec<OutlineTarget>,
        ImageMode,
        &HashSet<usize>,
    ) -> Vec<PositionedBlock>,
    T: Fn(Vec<PositionedBlock>) -> Vec<PositionedBlock>,
    R: Fn(&Vec<PositionedBlock>) -> String,
>(
    pages: &Vec<ParsedPage>,
    options: &BlockOptions,
    tools: &MarkdownTools<B, H, C, D, K, T, R>,
) -> (r: Vec<String>)
    requires
        call_requires(tools.body_size, (pages,)),
        forall|size: Pt| call_requires(tools.heading_map, (pages, size)),
        call_requires(tools.running_texts, (pages,)),
        forall|p: &ParsedPage, size: Pt| call_requires(tools.detect, (p, size)),
        forall|
            p: &ParsedPage,
            s: &DocumentSignals,
            o: &Vec<OutlineTarget>,
            m: ImageMode,
            c: &HashSet<usize>,
        |
            call_requires(tools.classify, (p, s, o, m, c)),
        forall|b: Vec<PositionedBlock>| call_requires(tools.tidy, (b,)),
        forall|b: &Vec<PositionedBlock>| call_requires(tools.render, (b,)),
    ensures
        are_page_markdowns(r@, *pages, *options, *tools),
{
    let signals = document_signals(
        pages,
        options.keep_headers_footers,
        &tools.body_size,
        &tools.heading_map,
        &tools.running_texts,
    );
    let mut out: Vec<String> = Vec::new();
    let mut i: usize = 0;
    while i < pages.len()
        invariant
            i <= pages@.len(),
            out@.len() == i,
            forall|p: &ParsedPage, size: Pt| call_requires(tools.detect, (p, size)),
            forall|
                p: &ParsedPage,
                s: &DocumentSignals,
                o: &Vec<OutlineTarget>,
                m: ImageMode,
                c: &HashSet<usize>,
            |
                call_requires(tools.classify, (p, s, o, m, c)),
            forall|b: Vec<PositionedBlock>| call_requires(tools.tidy, (b,)),
            forall|b: &Vec<PositionedBlock>| call_requires(tools.render, (b,)),
            forall|p: int|
                0 <= p < i ==> is_page_markdown(
                    #[trigger] out@[p],
                    pages@[p],
                    signals,
                    *options,
                    tools.detect,
                    tools.classify,
                    tools.tidy,
                    tools.render,
                ),
        decreases pages@.len() - i,
    {
        let blocks = extract_blocks(
            &pages[i],
            &signals,
            options,
            &tools.detect,
            &tools.classify,
            &tools.tidy,
        );
        let md = render_page_markdown(&pages[i], &blocks, &tools.render);
        proof {
            if let Some(b) = blocks {
                assert(call_ensures(tools.render, (&b,), md));
            }
        }
        out.push(md);
        i += 1;
    }
    out
}

/// Whether some blocks are those of a page, put back where they stand on it by
/// `place`: the ones that the page is taken apart into, and none where it has no
/// lines.
pub open spec fn is_page_layout<
    D: Fn(&ParsedPage, Pt) -> HashSet<usize>,
    K: Fn(
        &ParsedPage,
        &DocumentSignals,
        &Vec<OutlineTarget>,
        ImageMode,
        &HashSet<usize>,
    ) -> Vec<PositionedBlock>,
    T: Fn(Vec<PositionedBlock>) -> Vec<PositionedBlock>,
    L: Fn(&ParsedPage, &Vec<PositionedBlock>) -> Vec<LayoutBlock>,
>(
    out: Vec<LayoutBlock>,
    page: ParsedPage,
    signals: DocumentSignals,
    options: BlockOptions,
    detect: D,
    classify: K,
    tidy: T,
    place: L,
) -> bool {
    exists|blocks: Vec<PositionedBlock>|
        {
            &&& if page.projected_lines@.len() == 0 {
                blocks@.len() == 0
            } else {
                are_page_blocks(blocks, page, signals, options, detect, classify, tidy)
            }
            &&& #[trigger] call_ensures(place, (&page, &blocks), out)
        }
}

/// Whether some lists are the blocks of the pages of a document, one for each,
/// found with the signals of the document as a whole.
pub open spec fn are_page_layouts<
    B: Fn(&Vec<ParsedPage>) -> Pt,
    H: Fn(&Vec<ParsedPage>, Pt) -> Vec<(Pt, u8)>,
    C: Fn(&Vec<ParsedPage>) -> HashSet<String>,
    D: Fn(&ParsedPage, Pt) -> HashSet<usize>,
    K: Fn(
        &ParsedPage,
        &DocumentSignals,
        &Vec<OutlineTarget>,
        ImageMode,
        &HashSet<usize>,
    ) -> Vec<PositionedBlock>,
    T: Fn(Vec<PositionedBlock>) -> Vec<PositionedBlock>,
    R: Fn(&Vec<PositionedBlock>) -> String,
    L: Fn(&ParsedPage, &Vec<PositionedBlock>) -> Vec<LayoutBlock>,
>(
    found: Seq<Vec<LayoutBlock>>,
    pages: Vec<ParsedPage>,
    options: BlockOptions,
    tools: MarkdownTools<B, H, C, D, K, T, R>,
    place: L,
) -> bool {
    &&& found.len() == pages@.len()
    &&& exists|signals: DocumentSignals|
        {
            &&& #[trigger] are_signals(
                signals,
                pages,
                options.keep_headers_footers,
                tools.body_size,
                tools.heading_map,
                tools.running_texts,
            )
            &&& forall|p: int|
                0 <= p < found.len() ==> is_page_layout(
                    #[trigger] found[p],
                    pages@[p],
                    signals,
                    options,
                    tools.detect,
                    tools.classify,
                    tools.tidy,
                    place,
                )
        }
}

/// The blocks of the pages of a document, by the steps that are open to every
/// caller: the signals of the whole once, then the blocks of each page, and where
/// they stand on it.
pub fn lay_out_blocks<
    B: Fn(&Vec<ParsedPage>) -> Pt,
    H: Fn(&Vec<ParsedPage>, Pt) -> Vec<(Pt, u8)>,
    C: Fn(&Vec<ParsedPage>) -> HashSet<String>,
    D: Fn(&ParsedPage, Pt) -> HashSet<usize>,
    K: Fn(
        &ParsedPage,
        &DocumentSignals,
        &Vec<OutlineTarget>,
        ImageMode,
        &HashSet<usize>,
    ) -> Vec<PositionedBlock>,
    T: Fn(Vec<PositionedBlock>) -> Vec<PositionedBlock>,
    R: Fn(&Vec<PositionedBlock>) -> String,
    L: Fn(&ParsedPage, &Vec<PositionedBlock>) -> Vec<LayoutBlock>,
>(
    pages: &Vec<ParsedPage>,
    options: &BlockOptions,
    tools: &MarkdownTools<B, H, C, D, K, T, R>,
    place: &L,
) -> (r: Vec<Vec<LayoutBlock>>)
    requires
        call_requires(tools.body_size, (pages,)),
        forall|size: Pt| call_requires(tools.heading_map, (pages, size)),
        call_requires(tools.running_texts, (pages,)),
        forall|p: &ParsedPage, size: Pt| call_requires(tools.detect, (p, size)),
        forall|
            p: &ParsedPage,
            s: &DocumentSignals,
            o: &Vec<OutlineTarget>,
            m: ImageMode,
            c: &HashSet<usize>,
        |
            call_requires(tools.classify, (p, s, o, m, c)),
        forall|b: Vec<PositionedBlock>| call_requires(tools.tidy, (b,)),
        forall|p: &ParsedPage, b: &Vec<PositionedBlock>| call_requires(*place, (p, b)),
    ensures
        are_page_layouts(r@, *pages, *options, *tools, *place),
{
    let signals = document_signals(
        pages,
        options.keep_headers_footers,
        &tools.body_size,
        &tools.heading_map,
        &tools.running_texts,
    );
    let mut out: Vec<Vec<LayoutBlock>> = Vec::new();
    let mut i: usize = 0;
    while i < pages.len()
        invariant
            i <= pages@.len(),
            out@.len() == i,
            forall|p: &ParsedPage, size: Pt| call_requires(tools.detect, (p, size)),
            forall|
                p: &ParsedPage,
                s: &DocumentSignals,
                o: &Vec<OutlineTarget>,
                m: ImageMode,
                c: &HashSet<usize>,
            |
                call_requires(tools.classify, (p, s, o, m, c)),
            forall|b: Vec<PositionedBlock>| call_requires(tools.tidy, (b,)),
            forall|p: &ParsedPage, b: &Vec<PositionedBlock>| call_requires(*place, (p, b)),
            forall|p: int|
                0 <= p < i ==> is_page_layout(
                    #[trigger] out@[p],
                    pages@[p],
                    signals,
                    *options,
                    tools.detect,
                    tools.classify,
                    tools.tidy,
                    *place,
                ),
        decreases pages@.len() - i,
    {
        let page = &pages[i];
        let blocks = match extract_blocks(
            page,
            &signals,
            options,
            &tools.detect,
            &tools.classify,
            &tools.tidy,
        ) {
            Some(b) => b,
            None => Vec::new(),
        };
        let laid = place(page, &blocks);
        assert(call_ensures(*place, (page, &blocks), laid));
        out.push(laid);
        i += 1;
    }
    out
}

/// Points the figure references of images that repeat others at the others'
/// files, in every page's markdown and in the whole text.
pub fn canonicalize_image_refs(
    pages: &mut Vec<ParsedPage>,
    full_text: &mut String,
    images: &Vec<ExtractedImage>,
)
    ensures
        final(full_text)@ == images::canonical(old(full_text)@, images@),
        final(pages)@.len() == old(pages)@.len(),
        forall|p: int|
            0 <= p < old(pages)@.len() ==> images::page_with_markdown(
                old(pages)@[p],
                #[trigger] final(pages)@[p],
                images::canonical(old(pages)@[p].markdown@, images@),
            ),
{
    images::rewrite_duplicate_image_refs(pages, full_text, images)
}

}
