//! What each stage of parsing keeps of what it is given.
use crate::config::ImageMode;
use crate::stages;
use crate::stages::{
    BlockOptions, ContentFilters, DocumentSignals, GridText, OcrResult, PageOcrOutcome,
    PositionedBlock,
};
use crate::types::{
    LayoutComplexityStats, OutlineTarget, Page, PageComplexityStats, ParsedPage, TextItem,
};
use crate::units::Pt;
use std::collections::HashSet;
use vstd::prelude::*;

verus! {

// ── Reading ────────────────────────────────────────────────────────────

/// How many of the first readings of a page are no artifact.
pub open spec fn readings_among(results: Seq<OcrResult>, n: int) -> int
    decreases n,
{
    if n <= 0 {
        0
    } else if results[n - 1].artifact {
        readings_among(results, n - 1)
    } else {
        readings_among(results, n - 1) + 1
    }
}

proof fn lemma_genuine(results: Seq<OcrResult>, n: int)
    requires
        0 <= n <= results.len(),
    ensures
        stages::genuine(results, n).len() == readings_among(results, n),
        forall|j: int|
            0 <= j < n && !(#[trigger] results[j]).artifact ==> 0 <= readings_among(results, j)
                < readings_among(results, n) && stages::genuine(results, n)[readings_among(
                results,
                j,
            )] == results[j],
    decreases n,
{
    if n > 0 {
        lemma_genuine(results, n - 1);
        assert forall|j: int| 0 <= j < n && !(#[trigger] results[j]).artifact implies 0
            <= readings_among(results, j) < readings_among(results, n) && stages::genuine(
            results,
            n,
        )[readings_among(results, j)] == results[j] by {
            if j == n - 1 {
                assert(readings_among(results, n) == readings_among(results, n - 1) + 1);
            }
        }
    }
}

/// Whether an item of a page stands where a reading found it, says what it read,
/// and is marked as read.
pub open spec fn stands_as_read(item: TextItem, r: OcrResult) -> bool {
    &&& item.x == r.bbox.x
    &&& item.y == r.bbox.y
    &&& item.width == r.bbox.width
    &&& item.height == r.bbox.height
    &&& item.text@ == r.text@
    &&& item.font_name matches Some(f) && f@ == "OCR"@
    &&& item.rotation.units == 0
    &&& item.font_size is None && item.font_height is None && item.font_weight is None
    &&& item.font_ascent is None && item.font_descent is None && item.text_width is None
    &&& item.fill_color is None && item.stroke_color is None
    &&& item.link is None && item.mcid is None
    &&& item.words@.len() == 0 && item.char_codes@.len() == 0
    &&& !item.strike && !item.font_is_buggy && !item.trailing_space_generated
}

/// A page that was read has its own items first, unless they are of no use, and
/// behind them an item for each reading that is no artifact, in order, in the very
/// box in which it was read. A page that could not be read stays as it is.
pub proof fn readings_stand_where_they_were_found(
    before: Seq<TextItem>,
    after: Seq<TextItem>,
    o: PageOcrOutcome,
)
    requires
        stages::is_merged(before, after, o),
    ensures
        match o.results {
            Ok(results) => {
                let kept = if o.native_usable {
                    before.len() as int
                } else {
                    0
                };
                &&& after.len() == kept + readings_among(results@, results@.len() as int)
                &&& forall|k: int| 0 <= k < kept ==> #[trigger] after[k] == before[k]
                &&& forall|j: int|
                    0 <= j < results@.len() && !(#[trigger] results@[j]).artifact
                        ==> stands_as_read(
                        after[kept + readings_among(results@, j)],
                        results@[j],
                    )
            },
            Err(_) => after == before,
        },
{
    if let Ok(results) = o.results {
        let n = results@.len() as int;
        lemma_genuine(results@, n);
        let kept = stages::kept_items(before, o);
        let read = stages::genuine(results@, n);
        assert forall|k: int| 0 <= k < kept.len() implies #[trigger] after[k] == before[k] by {
            assert(after.take(kept.len() as int)[k] == kept[k]);
        }
        assert forall|j: int|
            0 <= j < results@.len() && !(#[trigger] results@[j]).artifact implies stands_as_read(
            after[kept.len() + readings_among(results@, j)],
            results@[j],
        ) by {
            let k = readings_among(results@, j);
            assert(stages::is_ocr_item(after[kept.len() + k], read[k]));
        }
    }
}

/// Reading a document changes of each page only its items, and those only as the
/// one outcome for its number says; outcomes for other pages change nothing of it.
pub proof fn pages_take_their_own_readings(
    before: Page,
    after: Page,
    outcomes: Seq<PageOcrOutcome>,
    i: int,
)
    requires
        stages::is_read(before, after, outcomes),
        0 <= i < outcomes.len(),
        forall|j: int|
            0 <= j < outcomes.len() ==> (j == i <==> (#[trigger] outcomes[j]).page_number
                == before.page_number),
    ensures
        stages::is_merged(before.text_items@, after.text_items@, outcomes[i]),
        after.page_number == before.page_number,
        after.page_width == before.page_width,
        after.page_height == before.page_height,
        after.content_bounds == before.content_bounds,
        after.annotations == before.annotations,
        after.extras == before.extras,
{
    let chain = choose|chain: Seq<Page>| #[trigger]
        stages::is_chain(chain, outcomes) && chain[0] == before && chain.last() == after;
    lemma_chain_before(chain, outcomes, i, i);
    assert(stages::reading_step(chain, outcomes, i));
    lemma_chain_after(chain, outcomes, i, outcomes.len() as int);
}

proof fn lemma_chain_before(chain: Seq<Page>, outcomes: Seq<PageOcrOutcome>, i: int, m: int)
    requires
        stages::is_chain(chain, outcomes),
        0 <= m <= i < outcomes.len(),
        forall|j: int|
            0 <= j < outcomes.len() ==> (j == i <==> (#[trigger] outcomes[j]).page_number
                == chain[0].page_number),
    ensures
        chain[m] == chain[0],
    decreases m,
{
    if m > 0 {
        lemma_chain_before(chain, outcomes, i, m - 1);
        assert(stages::reading_step(chain, outcomes, m - 1));
        assert(outcomes[m - 1].page_number != chain[0].page_number);
    }
}

proof fn lemma_chain_after(chain: Seq<Page>, outcomes: Seq<PageOcrOutcome>, i: int, m: int)
    requires
        stages::is_chain(chain, outcomes),
        0 <= i < m <= outcomes.len(),
        chain[i + 1].page_number == chain[0].page_number,
        forall|j: int|
            0 <= j < outcomes.len() ==> (j == i <==> (#[trigger] outcomes[j]).page_number
                == chain[0].page_number),
    ensures
        chain[m] == chain[i + 1],
    decreases m - i,
{
    if m > i + 1 {
        lemma_chain_after(chain, outcomes, i, m - 1);
        assert(stages::reading_step(chain, outcomes, m - 1));
        assert(outcomes[m - 1].page_number != chain[0].page_number);
    }
}

// ── Filters ────────────────────────────────────────────────────────────

/// Whether an item lies within the cropped page: no further left than the crop
/// takes away of the page's width, and so on for each side.
pub open spec fn lies_within_crop(item: TextItem, page: Page, filters: ContentFilters) -> bool {
    filters.crop_box matches Some(c) ==> {
        let (w, h) = (page.page_width.emu as int, page.page_height.emu as int);
        &&& c.left * w <= 1_000_000 * item.x.emu
        &&& c.top * h <= 1_000_000 * item.y.emu
        &&& c.right * w <= 1_000_000 * (w - (item.x.emu + item.width.emu))
        &&& c.bottom * h <= 1_000_000 * (h - (item.y.emu + item.height.emu))
    }
}

/// Whether a filter lets an item through: it lies within the crop, and does not
/// slant where slanted text is skipped.
pub open spec fn goes_through(item: TextItem, page: Page, filters: ContentFilters) -> bool {
    let slanted = (item.rotation.units as int) % 5_400_000 != 0;
    lies_within_crop(item, page, filters) && (filters.skip_diagonal_text ==> !slanted)
}

proof fn lemma_goes_through(item: TextItem, page: Page, filters: ContentFilters)
    ensures
        stages::passes(item, page, filters) == goes_through(item, page, filters),
{
    if let Some(c) = filters.crop_box {
        let (w, h) = (page.page_width.emu as int, page.page_height.emu as int);
        lemma_rest(c.right as int, w, item.x.emu + item.width.emu);
        lemma_rest(c.bottom as int, h, item.y.emu + item.height.emu);
    }
}

proof fn lemma_rest(c: int, w: int, e: int)
    ensures
        (1_000_000 * e <= (1_000_000 - c) * w) == (c * w <= 1_000_000 * (w - e)),
{
    assert((1_000_000 - c) * w == 1_000_000 * w - c * w) by (nonlinear_arith);
}

/// How many of the first items of a page go through a filter.
pub open spec fn through_among(page: Page, filters: ContentFilters, n: int) -> int
    decreases n,
{
    if n <= 0 {
        0
    } else if goes_through(page.text_items@[n - 1], page, filters) {
        through_among(page, filters, n - 1) + 1
    } else {
        through_among(page, filters, n - 1)
    }
}

proof fn lemma_passing(page: Page, filters: ContentFilters, n: int)
    requires
        0 <= n <= page.text_items@.len(),
    ensures
        stages::passing(page, filters, n).len() == through_among(page, filters, n),
        forall|j: int|
            0 <= j < n && goes_through(#[trigger] page.text_items@[j], page, filters) ==> 0
                <= through_among(page, filters, j) < through_among(page, filters, n)
                && stages::passing(page, filters, n)[through_among(page, filters, j)]
                == page.text_items@[j],
    decreases n,
{
    if n > 0 {
        lemma_passing(page, filters, n - 1);
        lemma_goes_through(page.text_items@[n - 1], page, filters);
        assert forall|j: int|
            0 <= j < n && goes_through(#[trigger] page.text_items@[j], page, filters) implies 0
            <= through_among(page, filters, j) < through_among(page, filters, n)
            && stages::passing(page, filters, n)[through_among(page, filters, j)]
            == page.text_items@[j] by {
            if j == n - 1 {
                assert(through_among(page, filters, n) == through_among(page, filters, n - 1) + 1);
            }
        }
    }
}

/// A filtered page keeps the items that lie within the crop and, where slanted text
/// is skipped, run along an edge of the page: those and no others, in order, as
/// they are. Nothing else of the page changes.
pub proof fn filters_keep_what_goes_through(before: Page, after: Page, filters: ContentFilters)
    requires
        stages::is_filtered(before, after, filters),
    ensures
        after.text_items@.len() == through_among(
            before,
            filters,
            before.text_items@.len() as int,
        ),
        forall|j: int|
            0 <= j < before.text_items@.len() && goes_through(
                #[trigger] before.text_items@[j],
                before,
                filters,
            ) ==> after.text_items@[through_among(before, filters, j)] == before.text_items@[j],
        after.page_number == before.page_number,
        after.page_width == before.page_width,
        after.page_height == before.page_height,
        after.content_bounds == before.content_bounds,
        after.annotations == before.annotations,
        after.extras == before.extras,
{
    lemma_passing(before, filters, before.text_items@.len() as int);
}

// ── Pages and their measures ───────────────────────────────────────────

/// A projected page keeps its number, size, bounds, items, annotations and extras,
/// and takes its text, lines, regions and figures from the grid; it has neither
/// Markdown nor blocks nor measures yet.
pub proof fn projected_pages_keep_their_content<P: Fn(&Page) -> GridText>(
    page: Page,
    parsed: ParsedPage,
    grid: P,
)
    requires
        stages::is_projected(page, parsed, grid),
    ensures
        parsed.page_number == page.page_number,
        parsed.page_width == page.page_width,
        parsed.page_height == page.page_height,
        parsed.content_bounds == page.content_bounds,
        parsed.text_items@ == page.text_items@,
        parsed.annotations == page.annotations,
        parsed.extras == page.extras,
        parsed.markdown@.len() == 0,
        parsed.complexity is None,
        parsed.blocks is None,
        exists|g: GridText| #[trigger]
            call_ensures(grid, (&page,), g) && g.text == parsed.text && g.lines
                == parsed.projected_lines && g.regions == parsed.regions && g.figures
                == parsed.figures,
{
    let g = GridText {
        text: parsed.text,
        lines: parsed.projected_lines,
        regions: parsed.regions,
        figures: parsed.figures,
    };
    assert(call_ensures(grid, (&page,), g));
}

proof fn lemma_taken(pages: Seq<ParsedPage>, stats: Seq<PageComplexityStats>, n: int)
    ensures
        0 <= stages::taken_upto(pages, stats, n) <= stats.len(),
    decreases n,
{
    if n > 0 {
        lemma_taken(pages, stats, n - 1);
    }
}

/// A page takes measures of its own number only, and with them its layout is
/// measured; nothing else of it changes. A page whose number was not measured stays
/// as it is.
pub proof fn pages_take_their_own_measures<L: Fn(&ParsedPage) -> LayoutComplexityStats>(
    pages: Seq<ParsedPage>,
    stats: Seq<PageComplexityStats>,
    p: int,
    after: ParsedPage,
    measure: L,
)
    requires
        stages::is_rated(pages, stats, p, after, measure),
        0 <= p < pages.len(),
    ensures
        after.page_number == pages[p].page_number,
        after.page_width == pages[p].page_width,
        after.page_height == pages[p].page_height,
        after.text@ == pages[p].text@,
        after.text_items@ == pages[p].text_items@,
        after.markdown@ == pages[p].markdown@,
        after.projected_lines == pages[p].projected_lines,
        after.blocks == pages[p].blocks,
        after.annotations == pages[p].annotations,
        after.extras == pages[p].extras,
        after.complexity == pages[p].complexity || exists|k: int|
            {
                &&& 0 <= k < stats.len()
                &&& (#[trigger] stats[k]).page_number == pages[p].page_number
                &&& after.complexity matches Some(s)
                &&& s.page_number == stats[k].page_number
                &&& s.needs_ocr == stats[k].needs_ocr
                &&& s.layout matches Some(l)
                &&& call_ensures(measure, (&pages[p],), l)
            },
        (forall|k: int|
            0 <= k < stats.len() ==> (#[trigger] stats[k]).page_number != pages[p].page_number)
            ==> after.complexity == pages[p].complexity,
{
    lemma_taken(pages, stats, p);
    let k = stages::taken_upto(pages, stats, p);
    if stages::takes(pages, stats, p) {
        assert(stats[k].page_number == pages[p].page_number);
    }
}

// ── Blocks and Markdown ────────────────────────────────────────────────

/// The outline of a page holds the entries that point to it, in order, and no
/// others.
pub proof fn page_outlines_hold_their_own_entries(
    outline: Seq<OutlineTarget>,
    page_number: usize,
    n: int,
)
    requires
        0 < n <= outline.len(),
    ensures
        ({
            let before = stages::page_outline(outline, page_number, n - 1);
            let after = stages::page_outline(outline, page_number, n);
            &&& stages::page_outline(outline, page_number, 0).len() == 0
            &&& outline[n - 1].page_index + 1 == page_number ==> after == before.push(
                outline[n - 1],
            )
            &&& outline[n - 1].page_index + 1 != page_number ==> after == before
        }),
{
}

proof fn lemma_outline(outline: Seq<OutlineTarget>, page_number: usize, n: int)
    requires
        0 <= n <= outline.len(),
    ensures
        forall|k: int|
            0 <= k < stages::page_outline(outline, page_number, n).len() ==> (
            #[trigger] stages::page_outline(outline, page_number, n)[k]).page_index + 1
                == page_number,
    decreases n,
{
    if n > 0 {
        lemma_outline(outline, page_number, n - 1);
    }
}

proof fn lemma_without_rules(blocks: Seq<PositionedBlock>, n: int)
    requires
        0 <= n <= blocks.len(),
    ensures
        forall|k: int|
            0 <= k < stages::without_rules(blocks, n).len() ==> !((
            #[trigger] stages::without_rules(blocks, n)[k]).block is HorizontalRule),
        forall|i: int|
            0 <= i < n && !((#[trigger] blocks[i]).block is HorizontalRule)
                ==> stages::without_rules(blocks, n).contains(blocks[i]),
        stages::without_rules(blocks, n).len() <= n,
    decreases n,
{
    if n > 0 {
        lemma_without_rules(blocks, n - 1);
        let before = stages::without_rules(blocks, n - 1);
        let after = stages::without_rules(blocks, n);
        assert forall|i: int|
            0 <= i < n && !((#[trigger] blocks[i]).block is HorizontalRule) implies after.contains(
            blocks[i],
        ) by {
            if i == n - 1 {
                assert(after[before.len() as int] == blocks[i]);
            } else {
                let k = choose|k: int| 0 <= k < before.len() && before[k] == blocks[i];
                assert(after[k] == blocks[i]);
            }
        }
    }
}

/// Rules separate something: a page of nothing but rules and figures loses its
/// rules and keeps every figure, and any other page keeps all that it has.
pub proof fn rules_go_where_nothing_is_said(blocks: Seq<PositionedBlock>)
    ensures
        ({
            let r = stages::bare_rules_dropped(blocks);
            &&& (exists|i: int|
                0 <= i < blocks.len() && !((#[trigger] blocks[i]).block is HorizontalRule)
                    && !(blocks[i].block is Figure)) ==> r == blocks
            &&& (forall|i: int|
                0 <= i < blocks.len() ==> (#[trigger] blocks[i]).block is HorizontalRule
                    || blocks[i].block is Figure) ==> {
                &&& forall|k: int| 0 <= k < r.len() ==> (#[trigger] r[k]).block is Figure
                &&& forall|i: int|
                    0 <= i < blocks.len() && (#[trigger] blocks[i]).block is Figure ==> r.contains(
                        blocks[i],
                    )
            }
        }),
{
    let n = blocks.len() as int;
    lemma_without_rules(blocks, n);
    if forall|i: int|
        0 <= i < blocks.len() ==> (#[trigger] blocks[i]).block is HorizontalRule
            || blocks[i].block is Figure {
        assert forall|i: int| 0 <= i < n implies !stages::says_something(#[trigger] blocks[i]) by {}
        lemma_only_from(blocks, n);
        let r = stages::without_rules(blocks, n);
        assert forall|k: int| 0 <= k < r.len() implies (#[trigger] r[k]).block is Figure by {
            let i = choose|i: int| 0 <= i < n && r[k] == #[trigger] blocks[i];
            assert(blocks[i].block is HorizontalRule || blocks[i].block is Figure);
        }
    }
    if exists|i: int|
        0 <= i < blocks.len() && !((#[trigger] blocks[i]).block is HorizontalRule)
            && !(blocks[i].block is Figure) {
        let i = choose|i: int|
            0 <= i < blocks.len() && !((#[trigger] blocks[i]).block is HorizontalRule)
                && !(blocks[i].block is Figure);
        assert(stages::says_something(blocks[i]));
    }
}

proof fn lemma_only_from(blocks: Seq<PositionedBlock>, n: int)
    requires
        0 <= n <= blocks.len(),
    ensures
        forall|k: int|
            0 <= k < stages::without_rules(blocks, n).len() ==> exists|i: int|
                0 <= i < n && #[trigger] stages::without_rules(blocks, n)[k] == #[trigger] blocks[i],
    decreases n,
{
    if n > 0 {
        lemma_only_from(blocks, n - 1);
        let before = stages::without_rules(blocks, n - 1);
        let after = stages::without_rules(blocks, n);
        assert forall|k: int| 0 <= k < after.len() implies exists|i: int|
            0 <= i < n && #[trigger] after[k] == #[trigger] blocks[i] by {
            if k < before.len() {
                assert(after[k] == before[k]);
                let i = choose|i: int| 0 <= i < n - 1 && before[k] == #[trigger] blocks[i];
                assert(after[k] == blocks[i]);
            } else {
                assert(after[k] == blocks[n - 1]);
            }
        }
    }
}

/// The blocks of a page come from the page itself: classified with the outline
/// entries that point to it, and with the running lines told where those are to go,
/// with none where they are to stay; then freed of bare rules and tidied.
pub proof fn blocks_come_from_their_own_page<
    D: Fn(&ParsedPage, Pt) -> HashSet<usize>,
    C: Fn(
        &ParsedPage,
        &DocumentSignals,
        &Vec<OutlineTarget>,
        ImageMode,
        &HashSet<usize>,
    ) -> Vec<PositionedBlock>,
    T: Fn(Vec<PositionedBlock>) -> Vec<PositionedBlock>,
>(
    out: Vec<PositionedBlock>,
    page: ParsedPage,
    signals: DocumentSignals,
    options: BlockOptions,
    detect: D,
    classify: C,
    tidy: T,
)
    requires
        stages::are_page_blocks(out, page, signals, options, detect, classify, tidy),
    ensures
        exists|
            entries: Vec<OutlineTarget>,
            chrome: HashSet<usize>,
            raw: Vec<PositionedBlock>,
            kept: Vec<PositionedBlock>,
        |
            {
                &&& forall|k: int|
                    0 <= k < entries@.len() ==> (#[trigger] entries@[k]).page_index + 1
                        == page.page_number
                &&& options.keep_headers_footers ==> forall|l: usize| !chrome@.contains(l)
                &&& !options.keep_headers_footers ==> call_ensures(
                    detect,
                    (&page, signals.body_size),
                    chrome,
                )
                &&& #[trigger] call_ensures(
                    classify,
                    (&page, &signals, &entries, options.image_mode, &chrome),
                    raw,
                )
                &&& kept@ == stages::bare_rules_dropped(raw@)
                &&& #[trigger] call_ensures(tidy, (kept,), out)
            },
{
    let (entries, chrome, raw, kept) = choose|
        entries: Vec<OutlineTarget>,
        chrome: HashSet<usize>,
        raw: Vec<PositionedBlock>,
        kept: Vec<PositionedBlock>,
    |
        {
            &&& entries@ == stages::page_outline(
                options.outline@,
                page.page_number,
                options.outline@.len() as int,
            )
            &&& if options.keep_headers_footers {
                chrome@ == Set::<usize>::empty()
            } else {
                call_ensures(detect, (&page, signals.body_size), chrome)
            }
            &&& #[trigger] call_ensures(
                classify,
                (&page, &signals, &entries, options.image_mode, &chrome),
                raw,
            )
            &&& kept@ == stages::bare_rules_dropped(raw@)
            &&& #[trigger] call_ensures(tidy, (kept,), out)
        };
    lemma_outline(options.outline@, page.page_number, options.outline@.len() as int);
    assert(call_ensures(
        classify,
        (&page, &signals, &entries, options.image_mode, &chrome),
        raw,
    ));
    assert(call_ensures(tidy, (kept,), out));
}

/// Text without lines is shown between fences as it is: three ticks and the word
/// `text` above it, three ticks below it, each on a line of its own.
pub proof fn fences_stand_on_their_own_lines(s: Seq<char>)
    ensures
        ({
            let r = stages::fenced(s);
            let n = s.len() as int;
            let more = if n > 0 && s[n - 1] == '\n' {
                0int
            } else {
                1
            };
            &&& r.len() == 8 + n + more + 3
            &&& r.take(8) == seq!['`', '`', '`', 't', 'e', 'x', 't', '\n']
            &&& r.subrange(8, 8 + n) == s
            &&& r[8 + n + more - 1] == '\n'
            &&& r.skip(8 + n + more) == seq!['`', '`', '`']
        }),
{
    reveal_strlit("```text\n");
    reveal_strlit("```");
    let r = stages::fenced(s);
    let n = s.len() as int;
    assert(r.take(8) =~= seq!['`', '`', '`', 't', 'e', 'x', 't', '\n']);
    assert(r.subrange(8, 8 + n) =~= s);
    if n > 0 && s.last() == '\n' {
        assert(r.skip(8 + n) =~= seq!['`', '`', '`']);
    } else {
        assert(r.skip(8 + n + 1) =~= seq!['`', '`', '`']);
    }
}

}
