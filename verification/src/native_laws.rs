//! What the result of a parse keeps of the pages, blocks and settings that it came
//! from.
use crate::blocks;
use crate::blocks::{Block, BlockSource, SlideSource};
use crate::config::{ImageMode, LiteParseConfig, OutputFormat};
use crate::geometry::Rect;
use crate::images;
use crate::native;
use crate::native::{DocxInput, NativeParts};
use crate::parser;
use crate::parser::ParseResult;
use crate::stages::{ContentFilters, GridText};
use crate::text;
use crate::types::{
    ExtractedImage, LayoutBlock, OutlineTarget, Page, PageComplexityStats, ParsedPage, TextItem,
};
use crate::draw_command::LayoutedPage;
use crate::units;
use vstd::prelude::*;

verus! {

// ── Text of a page ─────────────────────────────────────────────────────

/// The size against which gaps behind an item are held: that of its font, twelve
/// points where it has none, and at least one point.
pub open spec fn size_of(p: TextItem) -> int {
    let s = match p.font_size {
        Some(v) => v.emu as int,
        None => 152_400,
    };
    if s < 12_700 {
        12_700
    } else {
        s
    }
}

/// Where the baseline of an item lies, or its foot where its font is not known.
pub open spec fn foot_of(i: TextItem) -> int {
    match i.font_ascent {
        Some(a) => units::sat(i.y.emu + a.emu),
        None => units::sat(i.y.emu + i.height.emu),
    }
}

proof fn lemma_last_text(items: Seq<TextItem>, n: int, k: int)
    requires
        0 <= k < n <= items.len(),
        items[k].text@.len() > 0,
        forall|i: int| k < i < n ==> (#[trigger] items[i]).text@.len() == 0,
    ensures
        native::last_text(items, n) == Some(k),
    decreases n,
{
    if k < n - 1 {
        assert(items[n - 1].text@.len() == 0);
        lemma_last_text(items, n - 1, k);
    }
}

proof fn lemma_no_text(items: Seq<TextItem>, n: int)
    requires
        0 <= n <= items.len(),
        forall|i: int| 0 <= i < n ==> (#[trigger] items[i]).text@.len() == 0,
    ensures
        native::last_text(items, n) is None,
        native::page_text(items, n).len() == 0,
    decreases n,
{
    if n > 0 {
        assert(items[n - 1].text@.len() == 0);
        lemma_no_text(items, n - 1);
    }
}

/// The text of a page goes on with each item that says something: on the same line,
/// with a space where the gap is more than three twentieths of the size, and on a new
/// line where the baseline lies half the size or more away. Items that say nothing
/// count for nothing.
pub proof fn page_text_goes_on_item_by_item(items: Seq<TextItem>, n: int, k: int)
    requires
        0 <= k < n < items.len(),
        items[k].text@.len() > 0,
        forall|i: int| k < i < n ==> (#[trigger] items[i]).text@.len() == 0,
    ensures
        ({
            let before = native::page_text(items, n);
            let after = native::page_text(items, n + 1);
            let (p, i) = (items[k], items[n]);
            let off = foot_of(i) - foot_of(p);
            let gap = i.x.emu - units::sat(p.x.emu + p.width.emu);
            let level = 2 * off < size_of(p) && -2 * off < size_of(p);
            &&& i.text@.len() == 0 ==> after == before
            &&& i.text@.len() > 0 && level && 20 * gap > 3 * size_of(p) ==> after == before.push(
                ' ',
            ) + i.text@
            &&& i.text@.len() > 0 && level && 20 * gap <= 3 * size_of(p) ==> after == before
                + i.text@
            &&& i.text@.len() > 0 && !level ==> after == before.push('\n') + i.text@
        }),
{
    lemma_last_text(items, n, k);
    let before = native::page_text(items, n);
    let i = items[n];
    assert(before + seq![' '] + i.text@ =~= before.push(' ') + i.text@);
    assert(before + seq!['\n'] + i.text@ =~= before.push('\n') + i.text@);
    assert(before + Seq::<char>::empty() + i.text@ =~= before + i.text@);
}

/// The text of a page begins with the first item that says something.
pub proof fn page_text_begins_with_the_first_text(items: Seq<TextItem>, n: int)
    requires
        0 <= n < items.len(),
        forall|i: int| 0 <= i < n ==> (#[trigger] items[i]).text@.len() == 0,
    ensures
        native::page_text(items, n + 1) == items[n].text@,
{
    lemma_no_text(items, n);
    assert(native::page_text(items, n) + items[n].text@ =~= items[n].text@);
}

// ── Sparse text ────────────────────────────────────────────────────────

/// Native text gives way to reading where the pages hold fewer than thirty-two bytes
/// of text between them, white space at the ends of items left out.
pub proof fn sparse_pages_hold_little_text(pages: Seq<Page>)
    ensures
        native::sparse(pages) == (native::page_bytes(pages, pages.len() as int) < 32),
{
}

/// The text of pages adds up page by page and item by item.
pub proof fn text_adds_up(pages: Seq<Page>, items: Seq<TextItem>, p: int, n: int)
    requires
        0 < p <= pages.len(),
        0 < n <= items.len(),
    ensures
        native::page_bytes(pages, 0) == 0,
        native::item_bytes(items, 0) == 0,
        native::page_bytes(pages, p) == native::page_bytes(pages, p - 1) + native::item_bytes(
            pages[p - 1].text_items@,
            pages[p - 1].text_items@.len() as int,
        ),
        native::item_bytes(items, n) == native::item_bytes(items, n - 1) + text::utf8_len(
            text::trimmed(items[n - 1].text@),
        ),
{
}

// ── Headers, footers and measures ──────────────────────────────────────

/// A page has its header above its own blocks and its footer below them.
pub proof fn headers_stand_above_and_footers_below(
    page_blocks: Seq<Seq<Block>>,
    edges: Seq<(Vec<Block>, Vec<Block>)>,
    p: int,
)
    requires
        0 <= p < page_blocks.len(),
    ensures
        native::framed(page_blocks, edges).len() == page_blocks.len(),
        p >= edges.len() ==> native::framed(page_blocks, edges)[p] == page_blocks[p],
        p < edges.len() ==> {
            let r = native::framed(page_blocks, edges)[p];
            let (h, b) = (edges[p].0@.len() as int, page_blocks[p].len() as int);
            &&& r.len() == h + b + edges[p].1@.len()
            &&& r.take(h) == edges[p].0@
            &&& r.subrange(h, h + b) == page_blocks[p]
            &&& r.skip(h + b) == edges[p].1@
        },
{
    if p < edges.len() {
        let r = native::framed(page_blocks, edges)[p];
        let (h, b) = (edges[p].0@.len() as int, page_blocks[p].len() as int);
        assert(r.take(h) =~= edges[p].0@);
        assert(r.subrange(h, h + b) =~= page_blocks[p]);
        assert(r.skip(h + b) =~= edges[p].1@);
    }
}

/// Pages are measured where measures are wanted: each by itself, with its own images,
/// its own tables and its own columns.
pub proof fn pages_are_measured_by_themselves<
    M: Fn(&Page, &Vec<Rect>, usize, usize) -> PageComplexityStats,
>(
    stats: Seq<Option<PageComplexityStats>>,
    wanted: bool,
    pages: Seq<Page>,
    page_blocks: Seq<Vec<Block>>,
    rects: Seq<Vec<Rect>>,
    columns: Seq<usize>,
    measure: M,
    i: int,
)
    requires
        native::are_stats(stats, wanted, pages, page_blocks, rects, columns, measure),
        0 <= i < pages.len(),
    ensures
        stats.len() == pages.len(),
        stats[i] is Some <==> wanted,
        wanted ==> exists|r: Vec<Rect>, tables: usize|
            {
                &&& i < rects.len() ==> r@ == rects[i]@
                &&& i >= rects.len() ==> r@.len() == 0
                &&& tables == blocks::tables_upto(page_blocks[i]@, page_blocks[i]@.len() as int)
                &&& #[trigger] call_ensures(
                    measure,
                    (&pages[i], &r, tables, columns[i]),
                    stats[i]->0,
                )
            },
{
    if let Some(s) = stats[i] {
        let own = native::rects_on(rects, i);
        let count = blocks::tables_upto(page_blocks[i]@, page_blocks[i]@.len() as int);
        let (r, tables) = choose|r: Vec<Rect>, tables: usize|
            r@ == own && tables == count && #[trigger] call_ensures(
                measure,
                (&pages[i], &r, tables, columns[i]),
                s,
            );
        assert(call_ensures(measure, (&pages[i], &r, tables, columns[i]), stats[i]->0));
    }
}

/// Tables are counted, merged ones too, and nothing else.
pub proof fn tables_are_counted_one_by_one(list: Seq<Block>, n: int)
    requires
        0 < n <= list.len(),
    ensures
        blocks::tables_upto(list, 0) == 0,
        list[n - 1] is Table || list[n - 1] is MergedTable ==> blocks::tables_upto(list, n)
            == blocks::tables_upto(list, n - 1) + 1,
        !(list[n - 1] is Table || list[n - 1] is MergedTable) ==> blocks::tables_upto(list, n)
            == blocks::tables_upto(list, n - 1),
{
}

// ── Selection ──────────────────────────────────────────────────────────

/// Whether a page was asked for: its number is listed, or nothing is.
pub open spec fn asked_for(p: Page, targets: Option<Vec<u32>>) -> bool {
    targets is None || exists|j: int|
        0 <= j < targets->0@.len() && #[trigger] targets->0@[j] == p.page_number
}

proof fn lemma_asked_for(p: Page, targets: Option<Vec<u32>>)
    ensures
        native::wanted_page(p.page_number, targets) == asked_for(p, targets),
{
    if let Some(t) = targets {
        if native::wanted_page(p.page_number, targets) {
            let j = choose|j: int| 0 <= j < t@.len() && t@[j] == p.page_number as u32;
            assert(t@[j] == p.page_number);
        }
        if asked_for(p, targets) {
            let j = choose|j: int| 0 <= j < t@.len() && #[trigger] t@[j] == p.page_number;
            assert(t@[j] == p.page_number as u32);
            assert(t@.contains(p.page_number as u32));
        }
    }
}

/// How many of the first pages were asked for.
pub open spec fn asked_among(pages: Seq<Page>, targets: Option<Vec<u32>>, n: int) -> int
    decreases n,
{
    if n <= 0 {
        0
    } else {
        asked_among(pages, targets, n - 1) + (if asked_for(pages[n - 1], targets) {
            1int
        } else {
            0
        })
    }
}

proof fn lemma_asked_among(pages: Seq<Page>, targets: Option<Vec<u32>>, n: int)
    requires
        0 <= n <= pages.len(),
    ensures
        native::wanted_upto(pages, targets, n) == asked_among(pages, targets, n),
    decreases n,
{
    if n > 0 {
        lemma_asked_among(pages, targets, n - 1);
        lemma_asked_for(pages[n - 1], targets);
    }
}

/// A page is kept exactly where it was asked for and fewer than the greatest number
/// of pages were kept before it; the pages are narrowed down where some were asked
/// for by number, or more than that number are there.
pub proof fn first_pages_asked_for_are_kept(
    pages: Seq<Page>,
    targets: Option<Vec<u32>>,
    max: usize,
    i: int,
)
    requires
        0 <= i < pages.len(),
    ensures
        native::kept_pages(pages, targets, max).len() == pages.len(),
        native::kept_pages(pages, targets, max)[i] == (asked_for(pages[i], targets)
            && asked_among(pages, targets, i) < max),
        native::narrowed(pages, targets, max) == (targets is Some || asked_among(
            pages,
            targets,
            pages.len() as int,
        ) > max),
{
    lemma_asked_for(pages[i], targets);
    lemma_asked_among(pages, targets, i);
    lemma_asked_among(pages, targets, pages.len() as int);
}

/// How many of the first marks are set.
pub open spec fn marked_among(keep: Seq<bool>, n: int) -> int
    decreases n,
{
    if n <= 0 {
        0
    } else {
        marked_among(keep, n - 1) + (if keep[n - 1] {
            1int
        } else {
            0
        })
    }
}

/// Picking keeps what is marked, all of it and nothing else, in order. So pages,
/// blocks and measures that are picked by the same marks stay together.
pub proof fn picking_keeps_what_is_marked<T>(all: Seq<T>, keep: Seq<bool>, n: int)
    requires
        0 <= n <= keep.len(),
    ensures
        native::picked(all, keep, n).len() == marked_among(keep, n),
        forall|j: int|
            0 <= j < n && #[trigger] keep[j] ==> 0 <= marked_among(keep, j) < marked_among(keep, n)
                && native::picked(all, keep, n)[marked_among(keep, j)] == all[j],
    decreases n,
{
    if n > 0 {
        picking_keeps_what_is_marked(all, keep, n - 1);
        assert forall|j: int| 0 <= j < n && #[trigger] keep[j] implies 0 <= marked_among(keep, j)
            < marked_among(keep, n) && native::picked(all, keep, n)[marked_among(keep, j)]
            == all[j] by {
            if j == n - 1 {
                assert(marked_among(keep, n) == marked_among(keep, n - 1) + 1);
            }
        }
    }
}

// ── Pages and text of a result ─────────────────────────────────────────

/// A parsed page keeps the number, size, items, annotations and measures of its page,
/// its bounds only where those are wanted, and has Markdown only where that is the
/// output: rendered from its own blocks.
pub proof fn parsed_pages_keep_their_page<R: Fn(&Vec<Block>) -> String>(
    parsed: Seq<ParsedPage>,
    pages: Seq<Page>,
    page_blocks: Seq<Vec<Block>>,
    stats: Seq<Option<PageComplexityStats>>,
    config: LiteParseConfig,
    render: R,
    p: int,
)
    requires
        native::are_parsed(parsed, pages, page_blocks, stats, config, render),
        0 <= p < parsed.len(),
    ensures
        parsed.len() == pages.len(),
        parsed[p].page_number == pages[p].page_number,
        parsed[p].page_width == pages[p].page_width,
        parsed[p].page_height == pages[p].page_height,
        parsed[p].text_items@ == pages[p].text_items@,
        parsed[p].annotations == pages[p].annotations,
        parsed[p].complexity == stats[p],
        config.extract_content_bounds ==> parsed[p].content_bounds == pages[p].content_bounds,
        !config.extract_content_bounds ==> parsed[p].content_bounds is None,
        config.output_format == OutputFormat::Markdown ==> call_ensures(
            render,
            (&page_blocks[p],),
            parsed[p].markdown,
        ),
        config.output_format != OutputFormat::Markdown ==> parsed[p].markdown@.len() == 0,
        parsed[p].text@ == native::page_text(
            pages[p].text_items@,
            pages[p].text_items@.len() as int,
        ),
        parsed[p].projected_lines@.len() == 0,
        parsed[p].blocks is None,
        parsed[p].regions@.len() == 0,
        parsed[p].figures@.len() == 0,
{
    assert(native::is_parsed(
        parsed[p],
        pages[p],
        page_blocks[p],
        stats[p],
        config,
        render,
    ));
}

/// The whole text is the text of the pages, an empty line between them; where the
/// output is Markdown it is rendered from all blocks at once, and where those are not
/// at hand it is that of the pages, with a rule between them.
pub proof fn whole_text_is_that_of_its_pages<R: Fn(&Vec<Block>) -> String>(
    whole: String,
    parsed: Seq<ParsedPage>,
    all_blocks: Option<Vec<Block>>,
    config: LiteParseConfig,
    render: R,
)
    requires
        native::is_whole_text(whole, parsed, all_blocks, config, render),
    ensures
        config.output_format == OutputFormat::Markdown && all_blocks is Some ==> call_ensures(
            render,
            (&all_blocks->0,),
            whole,
        ),
        config.output_format == OutputFormat::Markdown && all_blocks is None ==> whole@
            == text::joined(
            parsed.map_values(|p: ParsedPage| p.markdown@),
            seq!['\n', '\n', '-', '-', '-', '-', '-', '\n', '\n'],
        ),
        config.output_format != OutputFormat::Markdown ==> whole@ == text::joined(
            parsed.map_values(|p: ParsedPage| p.text@),
            seq!['\n', '\n'],
        ),
{
    reveal_strlit("\n\n-----\n\n");
    reveal_strlit("\n\n");
    assert(native::page_break() =~= seq!['\n', '\n', '-', '-', '-', '-', '-', '\n', '\n']);
    assert(native::paragraph_break() =~= seq!['\n', '\n']);
    assert(native::markdowns(parsed) =~= parsed.map_values(|p: ParsedPage| p.markdown@));
    assert(native::plain_texts(parsed) =~= parsed.map_values(|p: ParsedPage| p.text@));
}

/// A result counts all pages of the document, also those that were not asked for, and
/// keeps its outline and images; it knows nothing that only a PDF file tells.
pub proof fn results_count_all_pages<R: Fn(&Vec<Block>) -> String>(
    r: ParseResult,
    parts: NativeParts,
    stats: Seq<Option<PageComplexityStats>>,
    targets: Option<Vec<u32>>,
    config: LiteParseConfig,
    render: R,
)
    requires
        native::is_selected_result(r, parts, stats, targets, config, render),
    ensures
        r.total_pages == parts.pages@.len(),
        r.pages@.len() <= config.max_pages,
        r.outline@ == parts.outline@,
        r.images@ == parts.images@,
        r.page_errors@.len() == 0,
        r.screenshots@.len() == 0,
        r.image_error_count == 0,
        r.form_type is None && r.creator is None && r.producer is None && r.doc_meta is None,
        r.xfa_packets is Some <==> config.extract_xfa_packets,
        r.xfa_packets matches Some(x) ==> x@.len() == 0,
{
    native::selection_keeps_its_limits(parts.pages@, targets, config.max_pages);
}

/// The parts of a document are its own pages and outline, its blocks shared out over
/// the pages, with headers and footers only where they are to be kept, and its images
/// only where they are wanted.
pub proof fn documents_hand_on_their_parts(
    parts: NativeParts,
    d: DocxInput,
    config: LiteParseConfig,
)
    requires
        native::are_docx_parts(parts, d, config),
    ensures
        parts.pages@ == d.layout.pages@,
        parts.outline@ == d.layout.outline@,
        config.extract_images || config.image_mode == ImageMode::Embed ==> parts.images@
            == d.images@,
        !(config.extract_images || config.image_mode == ImageMode::Embed) ==> parts.images@.len()
            == 0,
        parts.all_blocks is Some <==> !config.keep_headers_footers,
        parts.all_blocks matches Some(all) ==> all@.len() == d.tagged@.len() && forall|i: int|
            0 <= i < all@.len() ==> #[trigger] all@[i] == d.tagged@[i].0,
        parts.rects@.len() == d.commands@.len(),
        parts.page_blocks@.len() == (if d.layout.pages@.len() == 0 {
            1
        } else {
            d.layout.pages@.len()
        }),
{
    assert(blocks::lists(parts.page_blocks@).len() == parts.page_blocks@.len());
}

/// The parts of a deck are its own pages and images, each slide's blocks on its page,
/// and one column a page.
pub proof fn decks_hand_on_their_parts(
    parts: NativeParts,
    pages: Vec<Page>,
    layouts: Seq<LayoutedPage>,
    tagged: Seq<(Block, SlideSource)>,
    found: Vec<ExtractedImage>,
    p: int,
)
    requires
        native::are_pptx_parts(parts, pages, layouts, tagged, found),
        0 <= p < pages@.len(),
    ensures
        parts.pages@ == pages@,
        parts.images@ == found@,
        parts.page_blocks@.len() == pages@.len(),
        parts.columns@.len() == pages@.len(),
        parts.columns@[p] == 1,
        parts.rects@.len() == layouts.len(),
        parts.all_blocks matches Some(all) && all@.len() == tagged.len() && forall|i: int|
            0 <= i < all@.len() ==> #[trigger] all@[i] == tagged[i].0,
{
}

// ── Blocks over pages ──────────────────────────────────────────────────

/// A block stands on the page on which it starts, and no earlier than the block
/// before it; one that starts nowhere stays with the block before it, and notes stand
/// on the last page.
pub proof fn blocks_stand_where_they_start(
    tagged: Seq<(Block, BlockSource)>,
    block_pages: Map<usize, usize>,
    n_pages: int,
    n: int,
)
    requires
        0 < n <= tagged.len(),
        0 < n_pages,
        0 <= blocks::reached(tagged, block_pages, n_pages, n - 1) < n_pages,
    ensures
        ({
            let before = blocks::reached(tagged, block_pages, n_pages, n - 1);
            let at = blocks::reached(tagged, block_pages, n_pages, n);
            &&& blocks::reached(tagged, block_pages, n_pages, 0) == 0
            &&& before <= at < n_pages
            &&& tagged[n - 1].1 == BlockSource::Note ==> at == n_pages - 1
            &&& tagged[n - 1].1 matches BlockSource::Body(i) ==> {
                let starts = block_pages.contains_key(i);
                &&& !starts ==> at == before
                &&& starts && block_pages[i] <= before ==> at == before
                &&& starts && before <= block_pages[i] < n_pages ==> at == block_pages[i]
                &&& starts && block_pages[i] >= n_pages ==> at == n_pages - 1
            }
        }),
{
}

/// Each block is put on the page that it stands on, behind those already there, and
/// on no other.
pub proof fn blocks_are_put_on_one_page(
    tagged: Seq<(Block, BlockSource)>,
    block_pages: Map<usize, usize>,
    n_pages: int,
    p: int,
    n: int,
)
    requires
        0 < n <= tagged.len(),
    ensures
        ({
            let before = blocks::blocks_on(tagged, block_pages, n_pages, p, n - 1);
            let after = blocks::blocks_on(tagged, block_pages, n_pages, p, n);
            &&& blocks::blocks_on(tagged, block_pages, n_pages, p, 0).len() == 0
            &&& blocks::reached(tagged, block_pages, n_pages, n) == p ==> after == before.push(
                tagged[n - 1].0,
            )
            &&& blocks::reached(tagged, block_pages, n_pages, n) != p ==> after == before
        }),
{
}

/// What belongs to a slide, its notes and its diagrams too, stands on the slide's
/// page, in order.
pub proof fn slides_hold_their_own_blocks(tagged: Seq<(Block, SlideSource)>, p: int, n: int)
    requires
        0 < n <= tagged.len(),
    ensures
        ({
            let before = blocks::slide_blocks(tagged, p, n - 1);
            let after = blocks::slide_blocks(tagged, p, n);
            let slide = match tagged[n - 1].1 {
                SlideSource::Slide(s) => s,
                SlideSource::Notes(s) => s,
                SlideSource::Diagram(s) => s,
            };
            &&& blocks::slide_blocks(tagged, p, 0).len() == 0
            &&& slide == p ==> after == before.push(tagged[n - 1].0)
            &&& slide != p ==> after == before
        }),
{
}

/// The outline of a deck holds every heading that says something, in order: with its
/// own words, on the top level, and with the number of its page.
pub proof fn deck_outlines_hold_the_headings(page: Seq<Block>, at: int, n: int)
    requires
        0 < n <= page.len(),
    ensures
        ({
            let before = blocks::headings_upto(page, at, n - 1);
            let after = blocks::headings_upto(page, at, n);
            let says = page[n - 1] matches Block::Heading { text: t, .. } && text::trimmed(
                t@,
            ).len() > 0;
            &&& blocks::headings_upto(page, at, 0).len() == 0
            &&& says ==> after == before.push((page[n - 1], at))
            &&& !says ==> after == before
        }),
{
}

/// An entry of a deck's outline has the words of its heading, the top level and the
/// number of its page, counted from nought.
pub proof fn deck_entries_tell_their_heading(
    out: Seq<OutlineTarget>,
    headings: Seq<(Block, int)>,
    k: int,
)
    requires
        blocks::are_outline(out, headings),
        0 <= k < out.len(),
    ensures
        out.len() == headings.len(),
        headings[k].0 matches Block::Heading { text: t, .. } && out[k].title@ == t@,
        out[k].level == 1,
        out[k].page_index == headings[k].1,
        out[k].y_pdf is None,
{
    assert(blocks::is_entry(out[k], headings[k].0, headings[k].1));
}

/// The headings of a deck are those of its slides, slide by slide.
pub proof fn headings_are_gathered_slide_by_slide(pages: Seq<Seq<Block>>, n: int)
    requires
        0 < n <= pages.len(),
    ensures
        blocks::all_headings(pages, 0).len() == 0,
        blocks::all_headings(pages, n) == blocks::all_headings(pages, n - 1)
            + blocks::headings_upto(pages[n - 1], n - 1, pages[n - 1].len() as int),
{
}

// ── Settings and stages ────────────────────────────────────────────────

/// Images are wanted where they are asked for or embedded; figures wherever images
/// are not switched off; Markdown where it is the output.
pub proof fn settings_say_what_is_wanted(c: LiteParseConfig)
    ensures
        c.wants_images() == (c.extract_images || c.image_mode == ImageMode::Embed),
        c.markdown() == (c.output_format == OutputFormat::Markdown),
        c.figures() == (c.image_mode == ImageMode::Placeholder || c.image_mode
            == ImageMode::Embed),
{
}

/// The filters of a parse are those of its settings.
pub proof fn filters_are_those_of_the_settings(c: LiteParseConfig, f: ContentFilters)
    requires
        parser::filters_of(c, f),
    ensures
        f.crop_box is Some <==> c.crop_box is Some,
        f.crop_box matches Some(b) ==> b.left == c.crop_box->0.left && b.right
            == c.crop_box->0.right && b.top == c.crop_box->0.top && b.bottom
            == c.crop_box->0.bottom,
        f.skip_diagonal_text == c.skip_diagonal_text,
{
}

/// Pages take their own Markdown and keep everything else.
pub proof fn pages_take_their_own_markdown(
    before: Seq<ParsedPage>,
    after: Seq<ParsedPage>,
    md: Seq<String>,
    p: int,
)
    requires
        parser::have_markdown(before, after, md),
        0 <= p < before.len(),
    ensures
        after.len() == before.len(),
        p < md.len() ==> after[p].markdown@ == md[p]@,
        p >= md.len() ==> after[p].markdown@ == before[p].markdown@,
        after[p].page_number == before[p].page_number,
        after[p].text@ == before[p].text@,
        after[p].text_items@ == before[p].text_items@,
        after[p].page_width == before[p].page_width,
        after[p].page_height == before[p].page_height,
        after[p].complexity == before[p].complexity,
        after[p].annotations == before[p].annotations,
        after[p].blocks == before[p].blocks,
{
    assert(after[p] == after[p]);
}

/// Pages take the blocks that were found on them and keep everything else.
pub proof fn pages_take_their_own_blocks(
    before: Seq<ParsedPage>,
    after: Seq<ParsedPage>,
    found: Seq<Vec<LayoutBlock>>,
    p: int,
)
    requires
        parser::have_blocks(before, after, found),
        0 <= p < before.len(),
    ensures
        after.len() == before.len(),
        p < found.len() ==> after[p].blocks == Some(found[p]),
        p >= found.len() ==> after[p].blocks == before[p].blocks,
        after[p].markdown@ == before[p].markdown@,
        after[p].page_number == before[p].page_number,
        after[p].text@ == before[p].text@,
        after[p].text_items@ == before[p].text_items@,
        after[p].complexity == before[p].complexity,
{
    assert(after[p] == after[p]);
}

/// A name that says nothing is no name.
pub proof fn empty_names_are_none(s: Option<String>)
    ensures
        s is None ==> parser::spoken(s) is None,
        s matches Some(v) ==> v@.len() == 0 ==> parser::spoken(s) is None,
        s matches Some(v) ==> v@.len() > 0 ==> parser::spoken(s) == s,
{
}

/// Making references canonical changes a result only where the output is Markdown, and
/// of it only the text and the Markdown of its pages.
pub proof fn canonical_results_keep_the_rest(before: ParseResult, after: ParseResult, markdown: bool)
    requires
        native::is_canonical(before, after, markdown),
    ensures
        !markdown ==> after == before,
        after.total_pages == before.total_pages,
        after.pages@.len() == before.pages@.len(),
        after.outline == before.outline,
        after.images == before.images,
        after.page_errors == before.page_errors,
        after.screenshots == before.screenshots,
        after.image_error_count == before.image_error_count,
        after.creator == before.creator,
        after.producer == before.producer,
        after.doc_meta == before.doc_meta,
        after.form_type == before.form_type,
        after.xfa_packets == before.xfa_packets,
        forall|p: int|
            0 <= p < before.pages@.len() ==> {
                &&& (#[trigger] after.pages@[p]).text@ == before.pages@[p].text@
                &&& after.pages@[p].text_items@ == before.pages@[p].text_items@
                &&& after.pages@[p].page_number == before.pages@[p].page_number
                &&& after.pages@[p].complexity == before.pages@[p].complexity
                &&& after.pages@[p].blocks == before.pages@[p].blocks
            },
{
    if markdown {
        assert forall|p: int| 0 <= p < before.pages@.len() implies {
            &&& (#[trigger] after.pages@[p]).text@ == before.pages@[p].text@
            &&& after.pages@[p].text_items@ == before.pages@[p].text_items@
            &&& after.pages@[p].page_number == before.pages@[p].page_number
            &&& after.pages@[p].complexity == before.pages@[p].complexity
            &&& after.pages@[p].blocks == before.pages@[p].blocks
        } by {
            assert(images::page_with_markdown(
                before.pages@[p],
                after.pages@[p],
                images::canonical(before.pages@[p].markdown@, before.images@),
            ));
        }
    }
}

/// A parse of given pages knows nothing that only a file tells: no names, no facts, no
/// form, no images and no pictures; it keeps the outline and counts the pages.
pub proof fn given_pages_tell_no_file_facts<
    P: Fn(&Page) -> GridText,
    F: Fn(&Vec<ParsedPage>, &Vec<OutlineTarget>, ImageMode, bool) -> Vec<String>,
>(
    r: ParseResult,
    pages: Seq<Page>,
    outline: Vec<OutlineTarget>,
    c: LiteParseConfig,
    grid: P,
    format: F,
)
    requires
        parser::is_parsed_from(r, pages, outline, c, grid, format),
    ensures
        r.total_pages == pages.len(),
        r.outline == outline,
        r.page_errors@.len() == 0,
        r.images@.len() == 0,
        r.screenshots@.len() == 0,
        r.image_error_count == 0,
        r.form_type is None,
        r.creator is None,
        r.producer is None,
        r.doc_meta is None,
        r.xfa_packets is None,
{
}

/// Plain settings ask for nothing special: all pages, figures in place of images, no
/// filters, and none of the extras.
pub proof fn plain_settings_ask_for_nothing_special(c: LiteParseConfig)
    requires
        c.plain(),
    ensures
        c.target_pages is None && c.crop_box is None && c.password is None,
        c.image_mode == ImageMode::Placeholder && !c.extract_images && c.image_output_dir is None,
        !c.extract_text_metadata && !c.extract_vector_graphics && !c.extract_annotations,
        !c.extract_form_fields && !c.extract_structure_tree && !c.extract_content_bounds,
        !c.extract_xfa_packets && !c.extract_document_metadata && !c.include_complexity,
        !c.extract_blocks && !c.extract_screenshots && !c.continue_on_page_error,
        !c.emit_word_boxes && !c.keep_headers_footers && !c.skip_diagonal_text,
        !c.detect_screenshot_rects && !c.render_form_fields,
        c.page_orientation_corrections@.len() == 0,
{
}

/// A native page has none of the extras of a PDF page.
pub proof fn native_pages_have_no_extras<R: Fn(&Vec<Block>) -> String>(
    parsed: ParsedPage,
    page: Page,
    own: Vec<Block>,
    stats: Option<PageComplexityStats>,
    config: LiteParseConfig,
    render: R,
)
    requires
        native::is_parsed(parsed, page, own, stats, config, render),
    ensures
        parsed.extras.graphics@.len() == 0,
        parsed.extras.vector_graphics is None,
        parsed.extras.struct_nodes@.len() == 0,
        parsed.extras.image_refs@.len() == 0,
        parsed.extras.form_fields is None,
        parsed.extras.structure_tree is None,
{
}

}
