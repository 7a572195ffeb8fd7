//! A parse as the sum of its steps: whoever calls the steps one after the other
//! gets what a parse gives.
use crate::config::{ImageMode, LiteParseConfig};
use crate::docx_layout;
use crate::images;
use crate::native;
use crate::parser;
use crate::parser::{Extracted, ParseResult};
use crate::stages;
use crate::stages::{
    BlockOptions, ContentFilters, DocumentSignals, GridText, MarkdownTools, PageOcrOutcome,
    PositionedBlock,
};
use crate::text;
use crate::types::{
    LayoutBlock, LayoutComplexityStats, OutlineTarget, Page, PageComplexityStats, ParsedPage,
    TextItem,
};
use crate::units::Pt;
use std::collections::HashSet;
use vstd::prelude::*;

verus! {

// ── When two pages say the same ────────────────────────────────────────

/// Whether two texts say the same.
pub open spec fn same_item(a: TextItem, b: TextItem) -> bool {
    docx_layout::items_agree(a, b) && docx_layout::words_agree(a.words@, b.words@)
}

/// Whether texts say the same one by one.
pub open spec fn same_items(a: Seq<TextItem>, b: Seq<TextItem>) -> bool {
    &&& a.len() == b.len()
    &&& forall|k: int| 0 <= k < a.len() ==> same_item(#[trigger] a[k], #[trigger] b[k])
}

/// Whether two pages say the same.
pub open spec fn pages_agree(a: Page, b: Page) -> bool {
    &&& same_items(a.text_items@, b.text_items@)
    &&& a == (Page { text_items: a.text_items, ..b })
}

/// Whether pages say the same one by one.
pub open spec fn all_pages_agree(a: Seq<Page>, b: Seq<Page>) -> bool {
    &&& a.len() == b.len()
    &&& forall|p: int| 0 <= p < a.len() ==> pages_agree(#[trigger] a[p], #[trigger] b[p])
}

/// Whether two parsed pages say the same but for their markdown and their blocks.
pub open spec fn same_facts(a: ParsedPage, b: ParsedPage) -> bool {
    &&& a.page_number == b.page_number
    &&& a.page_width == b.page_width
    &&& a.page_height == b.page_height
    &&& a.content_bounds == b.content_bounds
    &&& a.text@ == b.text@
    &&& same_items(a.text_items@, b.text_items@)
    &&& text::texts(a.projected_lines@) == text::texts(b.projected_lines@)
    &&& a.regions@ == b.regions@
    &&& a.figures@ == b.figures@
    &&& a.complexity == b.complexity
    &&& a.annotations == b.annotations
    &&& a.extras == b.extras
}

/// Whether two parsed pages say the same but for their markdown.
pub open spec fn parsed_agree_but_markdown(a: ParsedPage, b: ParsedPage) -> bool {
    same_facts(a, b) && a.blocks == b.blocks
}

/// Whether two parsed pages say the same.
pub open spec fn parsed_agree(a: ParsedPage, b: ParsedPage) -> bool {
    parsed_agree_but_markdown(a, b) && a.markdown@ == b.markdown@
}

/// Whether parsed pages say the same one by one.
pub open spec fn all_agree(a: Seq<ParsedPage>, b: Seq<ParsedPage>) -> bool {
    &&& a.len() == b.len()
    &&& forall|p: int| 0 <= p < a.len() ==> parsed_agree(#[trigger] a[p], #[trigger] b[p])
}

// ── When an engine answers the same ────────────────────────────────────

/// Whether a grid lays pages out alike that say the same.
pub open spec fn steady_grid<P: Fn(&Page) -> GridText>(grid: P) -> bool {
    forall|a: Page, b: Page, x: GridText, y: GridText|
        #![trigger call_ensures(grid, (&a,), x), call_ensures(grid, (&b,), y)]
        pages_agree(a, b) && call_ensures(grid, (&a,), x) && call_ensures(grid, (&b,), y) ==> {
            &&& x.text@ == y.text@
            &&& text::texts(x.lines@) == text::texts(y.lines@)
            &&& x.regions@ == y.regions@
            &&& x.figures@ == y.figures@
        }
}

/// Whether a measure rates pages alike that say the same.
pub open spec fn steady_measure<L: Fn(&ParsedPage) -> LayoutComplexityStats>(measure: L) -> bool {
    forall|a: ParsedPage, b: ParsedPage, x: LayoutComplexityStats, y: LayoutComplexityStats|
        #![trigger call_ensures(measure, (&a,), x), call_ensures(measure, (&b,), y)]
        parsed_agree(a, b) && call_ensures(measure, (&a,), x) && call_ensures(measure, (&b,), y)
            ==> x == y
}

/// Whether a formatter writes pages alike that say the same.
pub open spec fn steady_format<
    F: Fn(&Vec<ParsedPage>, &Vec<OutlineTarget>, ImageMode, bool) -> Vec<String>,
>(format: F) -> bool {
    forall|
        a: Vec<ParsedPage>,
        b: Vec<ParsedPage>,
        outline: Vec<OutlineTarget>,
        mode: ImageMode,
        keep: bool,
        x: Vec<String>,
        y: Vec<String>,
    |
        #![trigger call_ensures(format, (&a, &outline, mode, keep), x),
            call_ensures(format, (&b, &outline, mode, keep), y)]
        all_agree(a@, b@) && call_ensures(format, (&a, &outline, mode, keep), x)
            && call_ensures(format, (&b, &outline, mode, keep), y) ==> text::texts(x@)
            == text::texts(y@)
}

/// Whether the same blocks are found on pages that say the same.
pub open spec fn steady_layout<
    K: Fn(&Vec<ParsedPage>, &Vec<OutlineTarget>, ImageMode, bool) -> Vec<Vec<LayoutBlock>>,
>(lay: K) -> bool {
    forall|
        a: Vec<ParsedPage>,
        b: Vec<ParsedPage>,
        outline: Vec<OutlineTarget>,
        mode: ImageMode,
        keep: bool,
        x: Vec<Vec<LayoutBlock>>,
        y: Vec<Vec<LayoutBlock>>,
    |
        #![trigger call_ensures(lay, (&a, &outline, mode, keep), x),
            call_ensures(lay, (&b, &outline, mode, keep), y)]
        all_agree(a@, b@) && call_ensures(lay, (&a, &outline, mode, keep), x) && call_ensures(
            lay,
            (&b, &outline, mode, keep),
            y,
        ) ==> x@ == y@
}

// ── Step by step ───────────────────────────────────────────────────────

/// One reading of pages that say the same makes pages that say the same.
proof fn lemma_merged_alike(
    x: Seq<TextItem>,
    y: Seq<TextItem>,
    u: Seq<TextItem>,
    v: Seq<TextItem>,
    o: PageOcrOutcome,
)
    requires
        same_items(x, y),
        stages::is_merged(x, u, o),
        stages::is_merged(y, v, o),
    ensures
        same_items(u, v),
{
    if let Ok(results) = o.results {
        let (kept, held) = (stages::kept_items(x, o), stages::kept_items(y, o));
        let n = kept.len() as int;
        let read = stages::genuine(results@, results@.len() as int);
        assert forall|k: int| 0 <= k < u.len() implies same_item(
            #[trigger] u[k],
            #[trigger] v[k],
        ) by {
            if k < n {
                assert(u.take(n)[k] == u[k]);
                assert(v.take(n)[k] == v[k]);
                assert(same_item(x[k], y[k]));
            } else {
                let j = k - n;
                assert(stages::is_ocr_item(u[kept.len() + j], read[j]));
                assert(stages::is_ocr_item(v[held.len() + j], read[j]));
                assert(u[k].char_codes@ =~= v[k].char_codes@);
            }
        }
    }
}

proof fn lemma_chains_alike(
    a: Seq<Page>,
    b: Seq<Page>,
    outcomes: Seq<PageOcrOutcome>,
    n: int,
)
    requires
        stages::is_chain(a, outcomes),
        stages::is_chain(b, outcomes),
        pages_agree(a[0], b[0]),
        0 <= n <= outcomes.len(),
    ensures
        pages_agree(a[n], b[n]),
    decreases n,
{
    if n > 0 {
        lemma_chains_alike(a, b, outcomes, n - 1);
        assert(stages::reading_step(a, outcomes, n - 1));
        assert(stages::reading_step(b, outcomes, n - 1));
        if outcomes[n - 1].page_number == a[n - 1].page_number {
            lemma_merged_alike(
                a[n - 1].text_items@,
                b[n - 1].text_items@,
                a[n].text_items@,
                b[n].text_items@,
                outcomes[n - 1],
            );
        }
    }
}

/// Whether pages went through some readings one by one.
pub open spec fn are_read(
    before: Seq<Page>,
    after: Seq<Page>,
    outcomes: Seq<PageOcrOutcome>,
) -> bool {
    &&& after.len() == before.len()
    &&& forall|p: int|
        0 <= p < before.len() ==> stages::is_read(before[p], #[trigger] after[p], outcomes)
}

proof fn lemma_read_alike(
    pages: Seq<Page>,
    a: Seq<Page>,
    b: Seq<Page>,
    outcomes: Seq<PageOcrOutcome>,
)
    requires
        are_read(pages, a, outcomes),
        are_read(pages, b, outcomes),
    ensures
        all_pages_agree(a, b),
{
    assert forall|p: int| 0 <= p < a.len() implies pages_agree(
        #[trigger] a[p],
        #[trigger] b[p],
    ) by {
        assert(stages::is_read(pages[p], a[p], outcomes));
        assert(stages::is_read(pages[p], b[p], outcomes));
        let c = choose|chain: Seq<Page>| #[trigger]
            stages::is_chain(chain, outcomes) && chain[0] == pages[p] && chain.last() == a[p];
        let d = choose|chain: Seq<Page>| #[trigger]
            stages::is_chain(chain, outcomes) && chain[0] == pages[p] && chain.last() == b[p];
        lemma_chains_alike(c, d, outcomes, outcomes.len() as int);
    }
}

/// The same texts pass the filters on pages that say the same.
proof fn lemma_passing_alike(a: Page, b: Page, f: ContentFilters, n: int)
    requires
        pages_agree(a, b),
        0 <= n <= a.text_items@.len(),
    ensures
        same_items(stages::passing(a, f, n), stages::passing(b, f, n)),
    decreases n,
{
    if n > 0 {
        lemma_passing_alike(a, b, f, n - 1);
        let (x, y) = (a.text_items@[n - 1], b.text_items@[n - 1]);
        assert(same_item(x, y));
        assert(x.x == x.area().x && x.y == x.area().y);
        assert(x.width == x.area().width && x.height == x.area().height);
        assert(y.x == y.area().x && y.y == y.area().y);
        assert(y.width == y.area().width && y.height == y.area().height);
        assert(stages::passes(x, a, f) == stages::passes(y, b, f));
        let (u, v) = (stages::passing(a, f, n - 1), stages::passing(b, f, n - 1));
        assert forall|k: int| 0 <= k < stages::passing(a, f, n).len() implies same_item(
            #[trigger] stages::passing(a, f, n)[k],
            #[trigger] stages::passing(b, f, n)[k],
        ) by {
            if k < u.len() {
                assert(same_item(u[k], v[k]));
            }
        }
    }
}

proof fn lemma_filtered_agree(
    x: Seq<Page>,
    y: Seq<Page>,
    a: Seq<Page>,
    b: Seq<Page>,
    f: ContentFilters,
    g: ContentFilters,
    c: LiteParseConfig,
)
    requires
        all_pages_agree(x, y),
        parser::filters_of(c, f),
        parser::filters_of(c, g),
        parser::are_filtered(x, a, f),
        parser::are_filtered(y, b, g),
    ensures
        all_pages_agree(a, b),
{
    assert(f == g);
    assert forall|p: int| 0 <= p < a.len() implies pages_agree(
        #[trigger] a[p],
        #[trigger] b[p],
    ) by {
        assert(pages_agree(x[p], y[p]));
        assert(stages::is_filtered(x[p], a[p], f));
        assert(stages::is_filtered(y[p], b[p], g));
        lemma_passing_alike(x[p], y[p], f, x[p].text_items@.len() as int);
    }
}

proof fn lemma_projected_agree<P: Fn(&Page) -> GridText>(
    a: Seq<Page>,
    b: Seq<Page>,
    x: Seq<ParsedPage>,
    y: Seq<ParsedPage>,
    grid: P,
)
    requires
        all_pages_agree(a, b),
        parser::are_projected(a, x, grid),
        parser::are_projected(b, y, grid),
        steady_grid(grid),
    ensures
        all_agree(x, y),
{
    assert forall|p: int| 0 <= p < x.len() implies parsed_agree(
        #[trigger] x[p],
        #[trigger] y[p],
    ) by {
        assert(pages_agree(a[p], b[p]));
        assert(stages::is_projected(a[p], x[p], grid));
        assert(stages::is_projected(b[p], y[p], grid));
    }
}

/// Which statistics a page takes depends on the numbers of the pages alone.
proof fn lemma_taken_alike(
    x: Seq<ParsedPage>,
    y: Seq<ParsedPage>,
    stats: Seq<PageComplexityStats>,
    n: int,
)
    requires
        0 <= n <= x.len(),
        all_agree(x, y),
    ensures
        stages::taken_upto(x, stats, n) == stages::taken_upto(y, stats, n),
    decreases n,
{
    if n > 0 {
        lemma_taken_alike(x, y, stats, n - 1);
        assert(parsed_agree(x[n - 1], y[n - 1]));
    }
}

proof fn lemma_rated_agree<L: Fn(&ParsedPage) -> LayoutComplexityStats>(
    x: Seq<ParsedPage>,
    y: Seq<ParsedPage>,
    u: Seq<ParsedPage>,
    v: Seq<ParsedPage>,
    stats: Seq<PageComplexityStats>,
    measure: L,
)
    requires
        all_agree(x, y),
        parser::are_rated(x, u, stats, measure),
        parser::are_rated(y, v, stats, measure),
        steady_measure(measure),
    ensures
        all_agree(u, v),
{
    assert forall|p: int| 0 <= p < u.len() implies parsed_agree(
        #[trigger] u[p],
        #[trigger] v[p],
    ) by {
        assert(parsed_agree(x[p], y[p]));
        assert(stages::is_rated(x, stats, p, u[p], measure));
        assert(stages::is_rated(y, stats, p, v[p], measure));
        lemma_taken_alike(x, y, stats, p);
    }
}

proof fn lemma_formatted_agree<
    F: Fn(&Vec<ParsedPage>, &Vec<OutlineTarget>, ImageMode, bool) -> Vec<String>,
>(
    u: Vec<ParsedPage>,
    v: Vec<ParsedPage>,
    outline: Vec<OutlineTarget>,
    s: Seq<ParsedPage>,
    t: Seq<ParsedPage>,
    whole_s: Seq<char>,
    whole_t: Seq<char>,
    c: LiteParseConfig,
    format: F,
)
    requires
        all_agree(u@, v@),
        parser::is_formatted(u, outline, s, whole_s, c, format),
        parser::is_formatted(v, outline, t, whole_t, c, format),
        steady_format(format),
    ensures
        all_agree(s, t),
        whole_s == whole_t,
{
    if c.markdown() {
        let x = choose|md: Vec<String>| #[trigger]
            call_ensures(
                format,
                (&u, &outline, c.image_mode, c.keep_headers_footers),
                md,
            ) && parser::have_markdown(u@, s, md@) && whole_s == text::joined(
                text::texts(md@),
                native::page_break(),
            );
        let y = choose|md: Vec<String>| #[trigger]
            call_ensures(
                format,
                (&v, &outline, c.image_mode, c.keep_headers_footers),
                md,
            ) && parser::have_markdown(v@, t, md@) && whole_t == text::joined(
                text::texts(md@),
                native::page_break(),
            );
        assert(text::texts(x@) == text::texts(y@));
        assert(text::texts(x@).len() == x@.len() && text::texts(y@).len() == y@.len());
        assert forall|p: int| 0 <= p < s.len() implies parsed_agree(
            #[trigger] s[p],
            #[trigger] t[p],
        ) by {
            assert(parsed_agree(u@[p], v@[p]));
            if p < x@.len() {
                assert(text::texts(x@)[p] == x@[p]@);
                assert(text::texts(y@)[p] == y@[p]@);
                assert(images::page_with_markdown(u@[p], s[p], x@[p]@));
                assert(images::page_with_markdown(v@[p], t[p], y@[p]@));
            }
        }
    } else {
        assert(native::plain_texts(u@) =~= native::plain_texts(v@)) by {
            assert forall|p: int| 0 <= p < u@.len() implies native::plain_texts(u@)[p]
                == native::plain_texts(v@)[p] by {
                assert(parsed_agree(u@[p], v@[p]));
            }
        }
    }
}

proof fn lemma_laid_out_agree<
    K: Fn(&Vec<ParsedPage>, &Vec<OutlineTarget>, ImageMode, bool) -> Vec<Vec<LayoutBlock>>,
>(
    u: Vec<ParsedPage>,
    v: Vec<ParsedPage>,
    outline: Vec<OutlineTarget>,
    s: Seq<ParsedPage>,
    t: Seq<ParsedPage>,
    x: Seq<ParsedPage>,
    y: Seq<ParsedPage>,
    c: LiteParseConfig,
    lay: K,
)
    requires
        all_agree(u@, v@),
        all_agree(s, t),
        parser::is_laid_out(u, outline, s, x, c, lay),
        parser::is_laid_out(v, outline, t, y, c, lay),
        steady_layout(lay),
    ensures
        all_agree(x, y),
{
    if c.extract_blocks {
        let a = choose|found: Vec<Vec<LayoutBlock>>| #[trigger]
            call_ensures(
                lay,
                (&u, &outline, c.image_mode, c.keep_headers_footers),
                found,
            ) && parser::have_blocks(s, x, found@);
        let b = choose|found: Vec<Vec<LayoutBlock>>| #[trigger]
            call_ensures(
                lay,
                (&v, &outline, c.image_mode, c.keep_headers_footers),
                found,
            ) && parser::have_blocks(t, y, found@);
        assert(a@ == b@);
        assert forall|p: int| 0 <= p < x.len() implies parsed_agree(
            #[trigger] x[p],
            #[trigger] y[p],
        ) by {
            assert(parsed_agree(s[p], t[p]));
        }
    }
}

// ── The laws ───────────────────────────────────────────────────────────

/// A parse gives exactly what its steps give when they are called by hand, one
/// after the other: the texts read off pictures are added to the pages as they
/// were taken out of the document, then come filters, projection, rating,
/// formatting, blocks, and at last the renaming of images that repeat others,
/// which only markdown needs. This holds as long as the engines under the steps
/// answer the same when asked the same.
pub proof fn parse_is_the_sum_of_its_steps<
    P: Fn(&Page) -> GridText,
    L: Fn(&ParsedPage) -> LayoutComplexityStats,
    F: Fn(&Vec<ParsedPage>, &Vec<OutlineTarget>, ImageMode, bool) -> Vec<String>,
    K: Fn(&Vec<ParsedPage>, &Vec<OutlineTarget>, ImageMode, bool) -> Vec<Vec<LayoutBlock>>,
>(
    taken: Seq<Page>,
    outcomes: Seq<PageOcrOutcome>,
    given: Extracted,
    r: ParseResult,
    c: LiteParseConfig,
    read: Seq<Page>,
    filters: ContentFilters,
    filtered: Seq<Page>,
    projected: Seq<ParsedPage>,
    rated: Vec<ParsedPage>,
    written: Seq<ParsedPage>,
    whole: Seq<char>,
    laid: Seq<ParsedPage>,
    grid: P,
    measure: L,
    format: F,
    lay: K,
)
    requires
        are_read(taken, given.pages@, outcomes),
        parser::is_finished(r, given, c, grid, measure, format, lay),
        are_read(taken, read, outcomes),
        parser::filters_of(c, filters),
        parser::are_filtered(read, filtered, filters),
        parser::are_projected(filtered, projected, grid),
        parser::are_rated(projected, rated@, given.complexity@, measure),
        parser::is_formatted(rated, given.outline, written, whole, c, format),
        parser::is_laid_out(rated, given.outline, written, laid, c, lay),
        steady_grid(grid),
        steady_measure(measure),
        steady_format(format),
        steady_layout(lay),
    ensures
        r.pages@.len() == laid.len(),
        forall|p: int|
            0 <= p < laid.len() ==> {
                &&& parsed_agree_but_markdown(#[trigger] r.pages@[p], laid[p])
                &&& r.pages@[p].markdown@ == (if c.markdown() {
                    images::canonical(laid[p].markdown@, given.images@)
                } else {
                    laid[p].markdown@
                })
            },
        r.text@ == (if c.markdown() {
            images::canonical(whole, given.images@)
        } else {
            whole
        }),
        r.total_pages == given.total_pages,
        r.page_errors == given.page_errors,
        r.outline == given.outline,
        r.images == given.images,
        r.screenshots == given.screenshots,
        r.image_error_count == given.image_error_count,
        r.form_type == given.form_type,
        r.creator == parser::spoken(given.creator),
        r.producer == parser::spoken(given.producer),
        r.doc_meta == given.doc_meta,
        r.xfa_packets == given.xfa_packets,
{
    let first = choose|first: ParseResult|
        {
            &&& #[trigger] native::is_canonical(first, r, c.markdown())
            &&& parser::goes_through_stages(
                given.pages@,
                given.complexity@,
                given.outline,
                first.pages@,
                first.text@,
                c,
                grid,
                measure,
                format,
                lay,
            )
            &&& first.total_pages == given.total_pages
            &&& first.page_errors == given.page_errors
            &&& first.outline == given.outline
            &&& first.images == given.images
            &&& first.screenshots == given.screenshots
            &&& first.image_error_count == given.image_error_count
            &&& first.form_type == given.form_type
            &&& first.creator == parser::spoken(given.creator)
            &&& first.producer == parser::spoken(given.producer)
            &&& first.doc_meta == given.doc_meta
            &&& first.xfa_packets == given.xfa_packets
        };
    let (f, a, x, u, s) = choose|
        filters: ContentFilters,
        filtered: Seq<Page>,
        projected: Seq<ParsedPage>,
        rated: Vec<ParsedPage>,
        written: Seq<ParsedPage>,
    |
        {
            &&& parser::filters_of(c, filters)
            &&& #[trigger] parser::are_filtered(given.pages@, filtered, filters)
            &&& #[trigger] parser::are_projected(filtered, projected, grid)
            &&& #[trigger] parser::are_rated(projected, rated@, given.complexity@, measure)
            &&& #[trigger] parser::is_formatted(
                rated,
                given.outline,
                written,
                first.text@,
                c,
                format,
            )
            &&& parser::is_laid_out(rated, given.outline, written, first.pages@, c, lay)
        };
    lemma_read_alike(taken, given.pages@, read, outcomes);
    lemma_filtered_agree(given.pages@, read, a, filtered, f, filters, c);
    lemma_projected_agree(a, filtered, x, projected, grid);
    lemma_rated_agree(x, projected, u@, rated@, given.complexity@, measure);
    lemma_formatted_agree(
        u,
        rated,
        given.outline,
        s,
        written,
        first.text@,
        whole,
        c,
        format,
    );
    lemma_laid_out_agree(u, rated, given.outline, s, written, first.pages@, laid, c, lay);
    assert forall|p: int| 0 <= p < laid.len() implies {
        &&& parsed_agree_but_markdown(#[trigger] r.pages@[p], laid[p])
        &&& r.pages@[p].markdown@ == (if c.markdown() {
            images::canonical(laid[p].markdown@, given.images@)
        } else {
            laid[p].markdown@
        })
    } by {
        assert(parsed_agree(first.pages@[p], laid[p]));
        if c.markdown() {
            assert(images::page_with_markdown(
                first.pages@[p],
                r.pages@[p],
                images::canonical(first.pages@[p].markdown@, given.images@),
            ));
        }
    }
}

/// Where a formatter writes markdown by the steps that are open to every caller,
/// a parse gives out what these steps give: there are pages, those of the result
/// but for their markdown, whose markdown, made with the signals of the whole
/// document, the blocks of each page and their text, is that of the result once
/// images that repeat others were renamed; and with rules between the pages it is
/// the text of the whole.
pub proof fn markdown_is_signals_blocks_and_text<
    P: Fn(&Page) -> GridText,
    L: Fn(&ParsedPage) -> LayoutComplexityStats,
    F: Fn(&Vec<ParsedPage>, &Vec<OutlineTarget>, ImageMode, bool) -> Vec<String>,
    V: Fn(&Vec<ParsedPage>, &Vec<OutlineTarget>, ImageMode, bool) -> Vec<Vec<LayoutBlock>>,
    B: Fn(&Vec<ParsedPage>) -> Pt,
    H: Fn(&Vec<ParsedPage>, Pt) -> Vec<(Pt, u8)>,
    C: Fn(&Vec<ParsedPage>) -> HashSet<String>,
    D: Fn(&ParsedPage, Pt) -> HashSet<usize>,
    K: Fn(
        &ParsedPage,
        &DocumentSignals,
        &Vec<OutlineTarget>,
        ImageMode,
        &HashSet<usize>,
    ) -> Vec<PositionedBlock>,
    T: Fn(Vec<PositionedBlock>) -> Vec<PositionedBlock>,
    R: Fn(&Vec<PositionedBlock>) -> String,
>(
    given: Extracted,
    r: ParseResult,
    c: LiteParseConfig,
    grid: P,
    measure: L,
    format: F,
    lay: V,
    tools: MarkdownTools<B, H, C, D, K, T, R>,
)
    requires
        c.markdown(),
        parser::is_finished(r, given, c, grid, measure, format, lay),
        forall|p: Vec<ParsedPage>, o: Vec<OutlineTarget>, m: ImageMode, k: bool, md: Vec<String>|
         #[trigger]
            call_ensures(format, (&p, &o, m, k), md) ==> stages::are_page_markdowns(
                md@,
                p,
                (BlockOptions { outline: &o, image_mode: m, keep_headers_footers: k }),
                tools,
            ),
    ensures
        exists|pages: Vec<ParsedPage>, md: Vec<String>|
            {
                &&& #[trigger] stages::are_page_markdowns(
                    md@,
                    pages,
                    (BlockOptions {
                        outline: &given.outline,
                        image_mode: c.image_mode,
                        keep_headers_footers: c.keep_headers_footers,
                    }),
                    tools,
                )
                &&& r.pages@.len() == pages@.len()
                &&& forall|p: int|
                    0 <= p < pages@.len() ==> same_facts(
                        #[trigger] r.pages@[p],
                        pages@[p],
                    ) && r.pages@[p].markdown@ == images::canonical(md@[p]@, given.images@)
                &&& r.text@ == images::canonical(
                    text::joined(text::texts(md@), native::page_break()),
                    given.images@,
                )
            },
{
    let first = choose|first: ParseResult|
        {
            &&& #[trigger] native::is_canonical(first, r, c.markdown())
            &&& parser::goes_through_stages(
                given.pages@,
                given.complexity@,
                given.outline,
                first.pages@,
                first.text@,
                c,
                grid,
                measure,
                format,
                lay,
            )
            &&& first.images == given.images
        };
    let (f, a, x, pages, written) = choose|
        filters: ContentFilters,
        filtered: Seq<Page>,
        projected: Seq<ParsedPage>,
        rated: Vec<ParsedPage>,
        written: Seq<ParsedPage>,
    |
        {
            &&& parser::filters_of(c, filters)
            &&& #[trigger] parser::are_filtered(given.pages@, filtered, filters)
            &&& #[trigger] parser::are_projected(filtered, projected, grid)
            &&& #[trigger] parser::are_rated(projected, rated@, given.complexity@, measure)
            &&& #[trigger] parser::is_formatted(
                rated,
                given.outline,
                written,
                first.text@,
                c,
                format,
            )
            &&& parser::is_laid_out(rated, given.outline, written, first.pages@, c, lay)
        };
    let md = choose|md: Vec<String>| #[trigger]
        call_ensures(
            format,
            (&pages, &given.outline, c.image_mode, c.keep_headers_footers),
            md,
        ) && parser::have_markdown(pages@, written, md@) && first.text@ == text::joined(
            text::texts(md@),
            native::page_break(),
        );
    assert(stages::are_page_markdowns(
        md@,
        pages,
        (BlockOptions {
            outline: &given.outline,
            image_mode: c.image_mode,
            keep_headers_footers: c.keep_headers_footers,
        }),
        tools,
    ));
    lemma_only_blocks_are_put_in(pages, given.outline, written, first.pages@, c, lay);
    assert forall|p: int| 0 <= p < pages@.len() implies same_facts(
        #[trigger] r.pages@[p],
        pages@[p],
    ) && r.pages@[p].markdown@ == images::canonical(md@[p]@, given.images@) by {
        assert(images::page_with_markdown(pages@[p], written[p], md@[p]@));
        assert(same_facts(first.pages@[p], written[p]));
        assert(images::page_with_markdown(
            first.pages@[p],
            r.pages@[p],
            images::canonical(first.pages@[p].markdown@, given.images@),
        ));
    }
}

/// Parsing pages whose texts are known already is projecting them and then
/// formatting what comes out: the pages are the projected ones but for their
/// markdown, and the text is what the formatting gives, as long as grid and
/// formatter answer the same when asked the same.
pub proof fn parsed_pages_are_projected_pages<
    P: Fn(&Page) -> GridText,
    F: Fn(&Vec<ParsedPage>, &Vec<OutlineTarget>, ImageMode, bool) -> Vec<String>,
>(
    r: ParseResult,
    pages: Seq<Page>,
    outline: Vec<OutlineTarget>,
    c: LiteParseConfig,
    projected: Vec<ParsedPage>,
    written: Seq<ParsedPage>,
    whole: Seq<char>,
    grid: P,
    format: F,
)
    requires
        parser::is_parsed_from(r, pages, outline, c, grid, format),
        parser::are_projected(pages, projected@, grid),
        parser::is_formatted(projected, outline, written, whole, c, format),
        steady_grid(grid),
        steady_format(format),
    ensures
        r.pages@.len() == projected@.len(),
        forall|p: int|
            0 <= p < projected@.len() ==> parsed_agree_but_markdown(
                #[trigger] r.pages@[p],
                projected@[p],
            ),
        all_agree(r.pages@, written),
        r.text@ == whole,
{
    let x = choose|projected: Vec<ParsedPage>|
        parser::are_projected(pages, projected@, grid) && #[trigger] parser::is_formatted(
            projected,
            outline,
            r.pages@,
            r.text@,
            c,
            format,
        );
    lemma_projected_agree(pages, pages, x@, projected@, grid);
    lemma_formatted_agree(x, projected, outline, r.pages@, written, r.text@, whole, c, format);
    lemma_only_markdown_is_put_in(x, outline, r.pages@, r.text@, c, format);
    assert forall|p: int| 0 <= p < projected@.len() implies parsed_agree_but_markdown(
        #[trigger] r.pages@[p],
        projected@[p],
    ) by {
        assert(parsed_agree(x@[p], projected@[p]));
        assert(parsed_agree_but_markdown(r.pages@[p], x@[p]));
    }
}

proof fn lemma_only_blocks_are_put_in<
    K: Fn(&Vec<ParsedPage>, &Vec<OutlineTarget>, ImageMode, bool) -> Vec<Vec<LayoutBlock>>,
>(
    rated: Vec<ParsedPage>,
    outline: Vec<OutlineTarget>,
    written: Seq<ParsedPage>,
    out: Seq<ParsedPage>,
    c: LiteParseConfig,
    lay: K,
)
    requires
        parser::is_laid_out(rated, outline, written, out, c, lay),
    ensures
        out.len() == written.len(),
        forall|p: int|
            0 <= p < out.len() ==> same_facts(#[trigger] out[p], written[p]) && out[p].markdown
                == written[p].markdown,
{
    if c.extract_blocks {
        let found = choose|found: Vec<Vec<LayoutBlock>>| #[trigger]
            call_ensures(
                lay,
                (&rated, &outline, c.image_mode, c.keep_headers_footers),
                found,
            ) && parser::have_blocks(written, out, found@);
        assert(parser::have_blocks(written, out, found@));
    }
}

proof fn lemma_only_markdown_is_put_in<
    F: Fn(&Vec<ParsedPage>, &Vec<OutlineTarget>, ImageMode, bool) -> Vec<String>,
>(
    projected: Vec<ParsedPage>,
    outline: Vec<OutlineTarget>,
    written: Seq<ParsedPage>,
    whole: Seq<char>,
    c: LiteParseConfig,
    format: F,
)
    requires
        parser::is_formatted(projected, outline, written, whole, c, format),
    ensures
        written.len() == projected@.len(),
        forall|p: int|
            0 <= p < written.len() ==> parsed_agree_but_markdown(
                #[trigger] written[p],
                projected@[p],
            ),
{
    if c.markdown() {
        let md = choose|md: Vec<String>| #[trigger]
            call_ensures(
                format,
                (&projected, &outline, c.image_mode, c.keep_headers_footers),
                md,
            ) && parser::have_markdown(projected@, written, md@) && whole == text::joined(
                text::texts(md@),
                native::page_break(),
            );
        assert(parser::have_markdown(projected@, written, md@));
    }
}

/// A formatter that gives one text for each page gives the markdown of the pages
/// and, with rules between them, the text of the whole; where no markdown is given
/// out, the text is that of the pages with an empty line between each two.
pub proof fn text_is_that_of_the_pages<
    F: Fn(&Vec<ParsedPage>, &Vec<OutlineTarget>, ImageMode, bool) -> Vec<String>,
>(
    projected: Vec<ParsedPage>,
    outline: Vec<OutlineTarget>,
    written: Seq<ParsedPage>,
    whole: Seq<char>,
    c: LiteParseConfig,
    format: F,
)
    requires
        parser::is_formatted(projected, outline, written, whole, c, format),
        parser::one_text_per_page(format),
    ensures
        whole == parser::joined_pages(written, c),
{
    if c.markdown() {
        let md = choose|md: Vec<String>| #[trigger]
            call_ensures(
                format,
                (&projected, &outline, c.image_mode, c.keep_headers_footers),
                md,
            ) && parser::have_markdown(projected@, written, md@) && whole == text::joined(
                text::texts(md@),
                native::page_break(),
            );
        let marks = native::markdowns(written);
        assert forall|p: int| 0 <= p < marks.len() implies marks[p] == text::texts(md@)[p] by {
            assert(images::page_with_markdown(projected@[p], written[p], md@[p]@));
        }
        assert(marks =~= text::texts(md@));
    }
}

/// Projecting some of the pages gives what projecting all of them gives for these,
/// as long as the grid answers the same when asked the same.
pub proof fn some_pages_are_projected_as_all<P: Fn(&Page) -> GridText>(
    pages: Seq<Page>,
    all: Seq<ParsedPage>,
    picked: Seq<int>,
    some: Seq<ParsedPage>,
    grid: P,
)
    requires
        steady_grid(grid),
        forall|k: int| 0 <= k < picked.len() ==> 0 <= #[trigger] picked[k] < pages.len(),
        parser::are_projected(pages, all, grid),
        parser::are_projected(picked.map_values(|i: int| pages[i]), some, grid),
    ensures
        all_agree(some, picked.map_values(|i: int| all[i])),
{
    let chosen = picked.map_values(|i: int| pages[i]);
    let same = picked.map_values(|i: int| all[i]);
    assert forall|k: int| 0 <= k < same.len() implies stages::is_projected(
        chosen[k],
        #[trigger] same[k],
        grid,
    ) by {
        assert(stages::is_projected(pages[picked[k]], all[picked[k]], grid));
    }
    lemma_projected_agree(chosen, chosen, some, same, grid);
}

/// Projecting two lists of pages one after the other gives what projecting them as
/// one list gives, as long as the grid answers the same when asked the same.
pub proof fn lists_are_projected_one_after_the_other<P: Fn(&Page) -> GridText>(
    first: Seq<Page>,
    second: Seq<Page>,
    a: Seq<ParsedPage>,
    b: Seq<ParsedPage>,
    whole: Seq<ParsedPage>,
    grid: P,
)
    requires
        steady_grid(grid),
        parser::are_projected(first, a, grid),
        parser::are_projected(second, b, grid),
        parser::are_projected(first + second, whole, grid),
    ensures
        all_agree(whole, a + b),
{
    projection_goes_page_by_page(first, second, a, b, grid);
    lemma_projected_agree(first + second, first + second, whole, a + b, grid);
}

/// Text read off pictures may be added in rounds: what two rounds of readings
/// make of a page is what all of them at once make of it.
pub proof fn readings_can_be_added_in_rounds(
    before: Page,
    between: Page,
    after: Page,
    first: Seq<PageOcrOutcome>,
    second: Seq<PageOcrOutcome>,
)
    requires
        stages::is_read(before, between, first),
        stages::is_read(between, after, second),
    ensures
        stages::is_read(before, after, first + second),
{
    let a = choose|chain: Seq<Page>| #[trigger]
        stages::is_chain(chain, first) && chain[0] == before && chain.last() == between;
    let b = choose|chain: Seq<Page>| #[trigger]
        stages::is_chain(chain, second) && chain[0] == between && chain.last() == after;
    let all = first + second;
    let n = first.len() as int;
    let chain = a + b.skip(1);
    assert forall|k: int| n <= k < chain.len() implies #[trigger] chain[k] == b[k - n] by {}
    assert forall|i: int| 0 <= i < all.len() implies #[trigger] stages::reading_step(
        chain,
        all,
        i,
    ) by {
        if i < n {
            assert(stages::reading_step(a, first, i));
        } else {
            assert(stages::reading_step(b, second, i - n));
        }
    }
    assert(stages::is_chain(chain, all));
    assert(chain[0] == before);
    assert(chain.last() == after);
}

/// Pages are projected one by one: what becomes of a list of pages is what
/// becomes of its two halves, one after the other.
pub proof fn projection_goes_page_by_page<P: Fn(&Page) -> GridText>(
    first: Seq<Page>,
    second: Seq<Page>,
    a: Seq<ParsedPage>,
    b: Seq<ParsedPage>,
    grid: P,
)
    requires
        a.len() == first.len(),
        b.len() == second.len(),
    ensures
        parser::are_projected(first + second, a + b, grid) <==> parser::are_projected(
            first,
            a,
            grid,
        ) && parser::are_projected(second, b, grid),
{
    let pages = first + second;
    let all = a + b;
    if parser::are_projected(pages, all, grid) {
        assert forall|p: int| 0 <= p < a.len() implies stages::is_projected(
            first[p],
            #[trigger] a[p],
            grid,
        ) by {
            assert(stages::is_projected(pages[p], all[p], grid));
        }
        assert forall|p: int| 0 <= p < b.len() implies stages::is_projected(
            second[p],
            #[trigger] b[p],
            grid,
        ) by {
            assert(stages::is_projected(pages[p + a.len()], all[p + a.len()], grid));
        }
    }
    if parser::are_projected(first, a, grid) && parser::are_projected(second, b, grid) {
        assert forall|p: int| 0 <= p < all.len() implies stages::is_projected(
            pages[p],
            #[trigger] all[p],
            grid,
        ) by {
            if p < a.len() {
                assert(stages::is_projected(first[p], a[p], grid));
            } else {
                assert(stages::is_projected(second[p - a.len()], b[p - a.len()], grid));
            }
        }
    }
}

}
