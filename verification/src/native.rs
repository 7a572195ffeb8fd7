//! Assembly of a parse from an office document's own blocks and pages, without
//! a conversion.
use crate::blocks;
use crate::blocks::{Block, BlockSource, SlideSource};
use crate::columns;
use crate::columns::SectionColumns;
use crate::config::LiteParseConfig;
use crate::docx_images;
use crate::docx_images::NativeImages;
use crate::docx_layout::NativeLayout;
use crate::draw_command::LayoutedPage;
use crate::geometry::Rect;
use crate::images;
use crate::parser::{LiteParseError, ParseResult};
use crate::pptx_layout;
use crate::text;
use crate::types::{
    ExtractedImage, OutlineTarget, Page, PageComplexityStats, PageExtras, ParsedPage, TextItem,
    XfaPacket,
};
use crate::units;
use crate::units::Pt;
use std::collections::{HashMap, VecDeque};
use vstd::prelude::*;

verus! {

// ── Plain text ─────────────────────────────────────────────────────────

/// The last of the first `n` items with a text.
pub open spec fn last_text(items: Seq<TextItem>, n: int) -> Option<int>
    decreases n,
{
    if n <= 0 {
        None
    } else if items[n - 1].text@.len() > 0 {
        Some(n - 1)
    } else {
        last_text(items, n - 1)
    }
}

/// The font size that gaps after an item are measured by: 12 points where it is
/// not known, and at least one point.
pub open spec fn gap_size(p: TextItem) -> Pt {
    let size = match p.font_size {
        Some(s) => s,
        None => units::pt(152400),
    };
    size.spec_max(units::pt(12700))
}

/// How far below the top of the page an item's baseline lies.
pub open spec fn baseline(i: TextItem) -> Pt {
    i.y.spec_plus(
        match i.font_ascent {
            Some(a) => a,
            None => i.height,
        },
    )
}

/// Whether two items stand on one line: their baselines differ by less than
/// half the first one's font size.
pub open spec fn on_one_line(p: TextItem, i: TextItem) -> bool {
    let d = baseline(i).emu - baseline(p).emu;
    2 * d < gap_size(p).emu && -2 * d < gap_size(p).emu
}

/// Whether the gap between two items stands for a space: it is wider than 0.15
/// of the first one's font size.
pub open spec fn word_gap(p: TextItem, i: TextItem) -> bool {
    20 * (i.x.emu - p.x.spec_plus(p.width).emu) > 3 * gap_size(p).emu
}

/// What stands between the texts of two items.
pub open spec fn separator(p: TextItem, i: TextItem) -> Seq<char> {
    if on_one_line(p, i) {
        if word_gap(p, i) {
            seq![' ']
        } else {
            seq![]
        }
    } else {
        seq!['\n']
    }
}

/// The text of the first `n` items in reading order.
pub open spec fn page_text(items: Seq<TextItem>, n: int) -> Seq<char>
    decreases n,
{
    if n <= 0 {
        seq![]
    } else if items[n - 1].text@.len() == 0 {
        page_text(items, n - 1)
    } else {
        match last_text(items, n - 1) {
            Some(k) => page_text(items, n - 1) + separator(items[k], items[n - 1]) + items[n
                - 1].text@,
            None => page_text(items, n - 1) + items[n - 1].text@,
        }
    }
}

fn size_for_gaps(p: &TextItem) -> (r: Pt)
    ensures
        r == gap_size(*p),
{
    let size = match p.font_size {
        Some(s) => s,
        None => Pt::from_emu(152400),
    };
    size.max(Pt::from_emu(12700))
}

fn baseline_of(i: &TextItem) -> (r: Pt)
    ensures
        r == baseline(*i),
{
    i.y.plus(
        match i.font_ascent {
            Some(a) => a,
            None => i.height,
        },
    )
}

fn push_separator(out: &mut String, p: &TextItem, i: &TextItem)
    ensures
        final(out)@ == old(out)@ + separator(*p, *i),
{
    let size: i128 = size_for_gaps(p).emu as i128;
    let d: i128 = baseline_of(i).emu as i128 - baseline_of(p).emu as i128;
    let ghost before = out@;
    let twice: i128 = 2 * d;
    if twice < size && -twice < size {
        let gap: i128 = i.x.emu as i128 - p.x.plus(p.width).emu as i128;
        if 20 * gap > 3 * size {
            out.push(' ');
            assert(out@ =~= before + seq![' ']);
        } else {
            assert(out@ =~= before + Seq::<char>::empty());
        }
    } else {
        out.push('\n');
        assert(out@ =~= before + seq!['\n']);
    }
}

/// The text of a page's items in reading order. Items come in the order in
/// which they were laid out, so lines and words are told apart by where the
/// items stand, and nothing is sorted.
pub fn native_page_text(items: &Vec<TextItem>) -> (r: String)
    ensures
        r@ == page_text(items@, items@.len() as int),
{
    let mut out = String::new();
    let mut prev: Option<usize> = None;
    let mut i: usize = 0;
    while i < items.len()
        invariant
            i <= items@.len(),
            out@ == page_text(items@, i as int),
            match prev {
                Some(k) => last_text(items@, i as int) == Some(k as int) && k < i,
                None => last_text(items@, i as int) is None,
            },
        decreases items@.len() - i,
    {
        if items[i].text.as_str().unicode_len() > 0 {
            if let Some(k) = prev {
                push_separator(&mut out, &items[k], &items[i]);
            }
            text::push_text(&mut out, items[i].text.as_str());
            prev = Some(i);
        }
        i += 1;
    }
    out
}

/// A page whose items have no text has none.
pub proof fn blank_items_give_no_text(items: Seq<TextItem>, n: int)
    requires
        0 <= n <= items.len(),
        forall|i: int| 0 <= i < n ==> (#[trigger] items[i]).text@.len() == 0,
    ensures
        page_text(items, n).len() == 0,
    decreases n,
{
    if n > 0 {
        blank_items_give_no_text(items, n - 1);
        assert(items[n - 1].text@.len() == 0);
    }
}

// ── Documents with hardly any text ─────────────────────────────────────

/// Below this many bytes of text a document is taken for a scan.
pub const NATIVE_TEXT_SPARSE_CHARS: usize = 32;

/// How many bytes the texts of the first `n` items take, without the white
/// space at their ends.
pub open spec fn item_bytes(items: Seq<TextItem>, n: int) -> nat
    decreases n,
{
    if n <= 0 {
        0
    } else {
        item_bytes(items, n - 1) + text::utf8_len(text::trimmed(items[n - 1].text@))
    }
}

/// How many bytes the texts of the first `n` pages take.
pub open spec fn page_bytes(pages: Seq<Page>, n: int) -> nat
    decreases n,
{
    if n <= 0 {
        0
    } else {
        page_bytes(pages, n - 1) + item_bytes(
            pages[n - 1].text_items@,
            pages[n - 1].text_items@.len() as int,
        )
    }
}

/// Whether some pages hold hardly any text.
pub open spec fn sparse(pages: Seq<Page>) -> bool {
    page_bytes(pages, pages.len() as int) < NATIVE_TEXT_SPARSE_CHARS
}

proof fn lemma_item_bytes_grow(items: Seq<TextItem>, a: int, b: int)
    requires
        0 <= a <= b,
    ensures
        item_bytes(items, a) <= item_bytes(items, b),
    decreases b,
{
    if a < b {
        lemma_item_bytes_grow(items, a, b - 1);
    }
}

proof fn lemma_page_bytes_grow(pages: Seq<Page>, a: int, b: int)
    requires
        0 <= a <= b,
    ensures
        page_bytes(pages, a) <= page_bytes(pages, b),
    decreases b,
{
    if a < b {
        lemma_page_bytes_grow(pages, a, b - 1);
    }
}

/// Whether some pages hold hardly any text.
pub fn is_text_sparse(pages: &Vec<Page>) -> (r: bool)
    ensures
        r == sparse(pages@),
{
    let mut total: usize = 0;
    let mut p: usize = 0;
    while p < pages.len()
        invariant
            p <= pages@.len(),
            total == page_bytes(pages@, p as int),
            total < 32,
        decreases pages@.len() - p,
    {
        let items = &pages[p].text_items;
        let ghost before = total;
        let mut i: usize = 0;
        while i < items.len()
            invariant
                p < pages@.len(),
                items@ == pages@[p as int].text_items@,
                i <= items@.len(),
                before == page_bytes(pages@, p as int),
                total == before + item_bytes(items@, i as int),
                total < 32,
            decreases items@.len() - i,
        {
            let more: usize = text::trimmed_len_up_to(items[i].text.as_str(), 32 - total);
            total += more;
            i += 1;
            if total >= 32 {
                proof {
                    lemma_item_bytes_grow(items@, i as int, items@.len() as int);
                    lemma_page_bytes_grow(pages@, p + 1, pages@.len() as int);
                }
                return false;
            }
        }
        p += 1;
    }
    true
}

/// Whether a native parse gives way to the conversion, which can read text off
/// pictures: only where that is wanted, and the document holds hardly any text.
pub fn gives_way_to_ocr(config: &LiteParseConfig, pages: &Vec<Page>) -> (r: bool)
    ensures
        r == (config.ocr_enabled && sparse(pages@)),
{
    config.ocr_enabled && is_text_sparse(pages)
}

// ── Headers and footers ────────────────────────────────────────────────

/// The blocks of the pages with each page's header before and its footer after
/// them.
pub open spec fn framed(
    page_blocks: Seq<Seq<Block>>,
    edges: Seq<(Vec<Block>, Vec<Block>)>,
) -> Seq<Seq<Block>> {
    Seq::new(
        page_blocks.len(),
        |p: int|
            if p < edges.len() {
                edges[p].0@ + page_blocks[p] + edges[p].1@
            } else {
                page_blocks[p]
            },
    )
}

fn append_blocks(out: &mut Vec<Block>, more: &Vec<Block>)
    ensures
        final(out)@ == old(out)@ + more@,
{
    let ghost start = out@;
    let mut i: usize = 0;
    assert(out@ =~= start + more@.take(0));
    while i < more.len()
        invariant
            i <= more@.len(),
            out@ == start + more@.take(i as int),
        decreases more@.len() - i,
    {
        out.push(more[i].clone());
        i += 1;
        assert(out@ =~= start + more@.take(i as int));
    }
    assert(more@.take(more@.len() as int) =~= more@);
}

/// Puts each page's header before its blocks and its footer after them.
pub fn add_headers_footers(
    page_blocks: Vec<Vec<Block>>,
    edges: &Vec<(Vec<Block>, Vec<Block>)>,
) -> (r: Vec<Vec<Block>>)
    ensures
        blocks::lists(r@) == framed(blocks::lists(page_blocks@), edges@),
{
    let ghost all = page_blocks@;
    let ghost want = framed(blocks::lists(all), edges@);
    let mut out: Vec<Vec<Block>> = Vec::new();
    for page in it: page_blocks
        invariant
            it.seq() == all,
            want == framed(blocks::lists(all), edges@),
            out@.len() == it.index(),
            forall|p: int| 0 <= p < out@.len() ==> (#[trigger] out@[p])@ == want[p],
        {
        let p: usize = out.len();
        let ghost own = page@;
        assert(blocks::lists(all)[p as int] == own);
        if p < edges.len() {
            let mut whole: Vec<Block> = Vec::new();
            append_blocks(&mut whole, &edges[p].0);
            append_blocks(&mut whole, &page);
            append_blocks(&mut whole, &edges[p].1);
            assert(whole@ =~= edges@[p as int].0@ + own + edges@[p as int].1@);
            out.push(whole);
        } else {
            out.push(page);
        }
    }
    assert(blocks::lists(out@) =~= want);
    out
}

// ── Complexity ─────────────────────────────────────────────────────────

/// The boxes of the pictures on page `i`.
pub open spec fn rects_on(rects: Seq<Vec<Rect>>, i: int) -> Seq<Rect> {
    if i < rects.len() {
        rects[i]@
    } else {
        seq![]
    }
}

/// Whether `stats` says what `measure` says of page `i`: of its pictures, its
/// tables and its columns.
pub open spec fn is_measured<M: Fn(&Page, &Vec<Rect>, usize, usize) -> PageComplexityStats>(
    stats: PageComplexityStats,
    page: Page,
    blocks: Seq<Block>,
    rects: Seq<Rect>,
    columns: usize,
    measure: M,
) -> bool {
    exists|r: Vec<Rect>, tables: usize|
        r@ == rects && tables == blocks::tables_upto(blocks, blocks.len() as int)
            && #[trigger] call_ensures(measure, (&page, &r, tables, columns), stats)
}

/// Whether some statistics are those of some pages, where they are wanted.
pub open spec fn are_stats<M: Fn(&Page, &Vec<Rect>, usize, usize) -> PageComplexityStats>(
    stats: Seq<Option<PageComplexityStats>>,
    wanted: bool,
    pages: Seq<Page>,
    page_blocks: Seq<Vec<Block>>,
    rects: Seq<Vec<Rect>>,
    columns: Seq<usize>,
    measure: M,
) -> bool {
    &&& stats.len() == pages.len()
    &&& forall|i: int|
        0 <= i < stats.len() ==> match #[trigger] stats[i] {
            Some(s) => wanted && is_measured(
                s,
                pages[i],
                page_blocks[i]@,
                rects_on(rects, i),
                columns[i],
                measure,
            ),
            None => !wanted,
        }
}

/// How hard each page is to read, from what the document itself says of it.
pub fn native_complexity<M: Fn(&Page, &Vec<Rect>, usize, usize) -> PageComplexityStats>(
    wanted: bool,
    pages: &Vec<Page>,
    page_blocks: &Vec<Vec<Block>>,
    rects: &Vec<Vec<Rect>>,
    columns: &Vec<usize>,
    measure: &M,
) -> (r: Vec<Option<PageComplexityStats>>)
    requires
        page_blocks@.len() >= pages@.len(),
        columns@.len() >= pages@.len(),
        forall|p: &Page, b: &Vec<Rect>, t: usize, c: usize|
            call_requires(*measure, (p, b, t, c)),
    ensures
        are_stats(r@, wanted, pages@, page_blocks@, rects@, columns@, *measure),
{
    let mut out: Vec<Option<PageComplexityStats>> = Vec::new();
    let none: Vec<Rect> = Vec::new();
    let mut i: usize = 0;
    while i < pages.len()
        invariant
            i <= pages@.len(),
            page_blocks@.len() >= pages@.len(),
            columns@.len() >= pages@.len(),
            none@ == Seq::<Rect>::empty(),
            forall|p: &Page, b: &Vec<Rect>, t: usize, c: usize|
                call_requires(*measure, (p, b, t, c)),
            out@.len() == i,
            forall|k: int|
                0 <= k < out@.len() ==> match #[trigger] out@[k] {
                    Some(s) => wanted && is_measured(
                        s,
                        pages@[k],
                        page_blocks@[k]@,
                        rects_on(rects@, k),
                        columns@[k],
                        *measure,
                    ),
                    None => !wanted,
                },
        decreases pages@.len() - i,
    {
        if wanted {
            let tables: usize = blocks::count_tables(&page_blocks[i]);
            let on_page: &Vec<Rect> = if i < rects.len() {
                &rects[i]
            } else {
                &none
            };
            assert(on_page@ == rects_on(rects@, i as int));
            let s = measure(&pages[i], on_page, tables, columns[i]);
            assert(call_ensures(
                *measure,
                (&pages@[i as int], on_page, tables, columns@[i as int]),
                s,
            ));
            assert(is_measured(
                s,
                pages@[i as int],
                page_blocks@[i as int]@,
                rects_on(rects@, i as int),
                columns@[i as int],
                *measure,
            ));
            out.push(Some(s));
        } else {
            out.push(None);
        }
        i += 1;
    }
    out
}

// ── Page selection ─────────────────────────────────────────────────────

/// Whether a page number is asked for.
pub open spec fn wanted_page(number: usize, targets: Option<Vec<u32>>) -> bool {
    targets matches Some(t) ==> t@.contains(number as u32) && number <= u32::MAX
}

/// How many of the first `n` pages are asked for.
pub open spec fn wanted_upto(pages: Seq<Page>, targets: Option<Vec<u32>>, n: int) -> int
    decreases n,
{
    if n <= 0 {
        0
    } else {
        wanted_upto(pages, targets, n - 1) + (if wanted_page(pages[n - 1].page_number, targets) {
            1int
        } else {
            0
        })
    }
}

/// Which pages a parse gives out: those asked for, and of them at most `max`.
pub open spec fn kept_pages(
    pages: Seq<Page>,
    targets: Option<Vec<u32>>,
    max: usize,
) -> Seq<bool> {
    Seq::new(
        pages.len(),
        |i: int|
            wanted_page(pages[i].page_number, targets) && wanted_upto(pages, targets, i) < max,
    )
}

/// Those of the first `n` elements that are kept.
pub open spec fn picked<T>(all: Seq<T>, keep: Seq<bool>, n: int) -> Seq<T>
    decreases n,
{
    if n <= 0 {
        seq![]
    } else if keep[n - 1] {
        picked(all, keep, n - 1).push(all[n - 1])
    } else {
        picked(all, keep, n - 1)
    }
}

/// Whether a selection can leave pages out: pages were asked for by number, or
/// there are more than `max`.
pub open spec fn narrowed(pages: Seq<Page>, targets: Option<Vec<u32>>, max: usize) -> bool {
    targets is Some || wanted_upto(pages, targets, pages.len() as int) > max
}

fn is_wanted(number: usize, targets: &Option<Vec<u32>>) -> (r: bool)
    ensures
        r == wanted_page(number, *targets),
{
    match targets {
        None => true,
        Some(t) => {
            let mut i: usize = 0;
            while i < t.len()
                invariant
                    *targets == Some(*t),
                    i <= t@.len(),
                    forall|j: int| 0 <= j < i ==> #[trigger] t@[j] != number,
                decreases t@.len() - i,
            {
                if t[i] as usize == number {
                    assert(t@[i as int] == number as u32);
                    return true;
                }
                i += 1;
            }
            proof {
                if number <= u32::MAX && t@.contains(number as u32) {
                    let j = choose|j: int| 0 <= j < t@.len() && t@[j] == number as u32;
                    assert(t@[j] != number);
                }
            }
            false
        },
    }
}

fn keep_where<T>(all: Vec<T>, keep: &Vec<bool>) -> (r: Vec<T>)
    requires
        all@.len() >= keep@.len(),
    ensures
        r@ == picked(all@, keep@, keep@.len() as int),
{
    let ghost seen = all@;
    let mut out: Vec<T> = Vec::new();
    let mut i: usize = 0;
    for item in it: all
        invariant
            it.seq() == seen,
            seen.len() >= keep@.len(),
            i == (if it.index() < keep@.len() {
                it.index() as int
            } else {
                keep@.len() as int
            }),
            out@ == picked(seen, keep@, i as int),
        {
        if i < keep.len() {
            if keep[i] {
                out.push(item);
            }
            i += 1;
        }
    }
    out
}

/// The pages that a parse gives out, with their blocks and statistics, and
/// whether pages can have been left out. Pages are chosen by number first and
/// counted afterwards.
pub fn select_native_pages(
    pages: Vec<Page>,
    page_blocks: Vec<Vec<Block>>,
    stats: Vec<Option<PageComplexityStats>>,
    targets: &Option<Vec<u32>>,
    max: usize,
) -> (r: (Vec<Page>, Vec<Vec<Block>>, Vec<Option<PageComplexityStats>>, bool))
    requires
        page_blocks@.len() >= pages@.len(),
        stats@.len() >= pages@.len(),
    ensures
        ({
            let keep = kept_pages(pages@, *targets, max);
            &&& r.0@ == picked(pages@, keep, keep.len() as int)
            &&& r.1@ == picked(page_blocks@, keep, keep.len() as int)
            &&& r.2@ == picked(stats@, keep, keep.len() as int)
            &&& r.3 == narrowed(pages@, *targets, max)
        }),
        r.0@.len() == r.1@.len() == r.2@.len(),
{
    let ghost want = kept_pages(pages@, *targets, max);
    let mut keep: Vec<bool> = Vec::new();
    let mut count: usize = 0;
    let mut i: usize = 0;
    while i < pages.len()
        invariant
            i <= pages@.len(),
            count <= i,
            count == wanted_upto(pages@, *targets, i as int),
            want == kept_pages(pages@, *targets, max),
            keep@.len() == i,
            forall|j: int| 0 <= j < i ==> #[trigger] keep@[j] == want[j],
        decreases pages@.len() - i,
    {
        let wanted = is_wanted(pages[i].page_number, targets);
        keep.push(wanted && count < max);
        if wanted {
            count += 1;
        }
        i += 1;
    }
    assert(keep@ =~= want);
    proof {
        lemma_picked_lengths(pages@, page_blocks@, want, want.len() as int);
        lemma_picked_lengths(pages@, stats@, want, want.len() as int);
    }
    let filtered = targets.is_some() || count > max;
    (
        keep_where(pages, &keep),
        keep_where(page_blocks, &keep),
        keep_where(stats, &keep),
        filtered,
    )
}

proof fn lemma_picked_lengths<S, T>(a: Seq<S>, b: Seq<T>, keep: Seq<bool>, n: int)
    ensures
        picked(a, keep, n).len() == picked(b, keep, n).len(),
    decreases n,
{
    if n > 0 {
        lemma_picked_lengths(a, b, keep, n - 1);
    }
}

proof fn lemma_picked_count(pages: Seq<Page>, targets: Option<Vec<u32>>, max: usize, n: int)
    requires
        0 <= n <= pages.len(),
    ensures
        picked(pages, kept_pages(pages, targets, max), n).len() == (if wanted_upto(
            pages,
            targets,
            n,
        ) < max {
            wanted_upto(pages, targets, n)
        } else {
            max as int
        }),
    decreases n,
{
    if n > 0 {
        lemma_picked_count(pages, targets, max, n - 1);
    }
}

proof fn lemma_picked_wanted(pages: Seq<Page>, targets: Option<Vec<u32>>, max: usize, n: int)
    requires
        0 <= n <= pages.len(),
    ensures
        forall|k: int|
            0 <= k < picked(pages, kept_pages(pages, targets, max), n).len() ==> wanted_page(
                (#[trigger] picked(pages, kept_pages(pages, targets, max), n)[k]).page_number,
                targets,
            ),
    decreases n,
{
    if n > 0 {
        lemma_picked_wanted(pages, targets, max, n - 1);
    }
}

proof fn lemma_all_kept(pages: Seq<Page>, targets: Option<Vec<u32>>, max: usize, n: int)
    requires
        0 <= n <= pages.len(),
        targets is None,
        pages.len() <= max,
    ensures
        wanted_upto(pages, targets, n) == n,
        picked(pages, kept_pages(pages, targets, max), n) == pages.take(n),
    decreases n,
{
    if n > 0 {
        lemma_all_kept(pages, targets, max, n - 1);
        assert(pages.take(n) =~= pages.take(n - 1).push(pages[n - 1]));
    } else {
        assert(pages.take(0) =~= Seq::<Page>::empty());
    }
}

/// A selection gives out at most `max` pages, all of them asked for; and where
/// it leaves none out, it gives out the pages as they are.
pub proof fn selection_keeps_its_limits(pages: Seq<Page>, targets: Option<Vec<u32>>, max: usize)
    ensures
        picked(pages, kept_pages(pages, targets, max), pages.len() as int).len() <= max,
        forall|k: int|
            0 <= k < picked(pages, kept_pages(pages, targets, max), pages.len() as int).len()
                ==> wanted_page(
                (#[trigger] picked(
                    pages,
                    kept_pages(pages, targets, max),
                    pages.len() as int,
                )[k]).page_number,
                targets,
            ),
        !narrowed(pages, targets, max) ==> picked(
            pages,
            kept_pages(pages, targets, max),
            pages.len() as int,
        ) == pages,
{
    let n = pages.len() as int;
    lemma_picked_count(pages, targets, max, n);
    lemma_picked_wanted(pages, targets, max, n);
    if !narrowed(pages, targets, max) {
        lemma_wanted_all(pages, targets, n);
        lemma_all_kept(pages, targets, max, n);
        assert(pages.take(n) =~= pages);
    }
}

proof fn lemma_wanted_all(pages: Seq<Page>, targets: Option<Vec<u32>>, n: int)
    requires
        0 <= n,
        targets is None,
    ensures
        wanted_upto(pages, targets, n) == n,
    decreases n,
{
    if n > 0 {
        lemma_wanted_all(pages, targets, n - 1);
    }
}

// ── Rendering ──────────────────────────────────────────────────────────

/// What stands between the pages of a markdown text.
pub open spec fn page_break() -> Seq<char> {
    "\n\n-----\n\n"@
}

/// What stands between the pages of a plain text.
pub open spec fn paragraph_break() -> Seq<char> {
    "\n\n"@
}

/// The markdown of each page.
pub open spec fn markdowns(pages: Seq<ParsedPage>) -> Seq<Seq<char>> {
    pages.map_values(|p: ParsedPage| p.markdown@)
}

/// The plain text of each page.
pub open spec fn plain_texts(pages: Seq<ParsedPage>) -> Seq<Seq<char>> {
    pages.map_values(|p: ParsedPage| p.text@)
}

/// The markdown of all pages, with a rule between each two.
pub fn join_markdown(pages: &Vec<ParsedPage>) -> (r: String)
    ensures
        r@ == text::joined(markdowns(pages@), page_break()),
{
    let mut parts: Vec<String> = Vec::new();
    let mut i: usize = 0;
    while i < pages.len()
        invariant
            i <= pages@.len(),
            parts@.len() == i,
            forall|j: int| 0 <= j < i ==> (#[trigger] parts@[j])@ == pages@[j].markdown@,
        decreases pages@.len() - i,
    {
        parts.push(pages[i].markdown.clone());
        i += 1;
    }
    assert(text::texts(parts@) =~= markdowns(pages@));
    text::join(&parts, "\n\n-----\n\n")
}

/// The plain text of all pages, with an empty line between each two.
pub fn join_text(pages: &Vec<ParsedPage>) -> (r: String)
    ensures
        r@ == text::joined(plain_texts(pages@), paragraph_break()),
{
    let mut parts: Vec<String> = Vec::new();
    let mut i: usize = 0;
    while i < pages.len()
        invariant
            i <= pages@.len(),
            parts@.len() == i,
            forall|j: int| 0 <= j < i ==> (#[trigger] parts@[j])@ == pages@[j].text@,
        decreases pages@.len() - i,
    {
        parts.push(pages[i].text.clone());
        i += 1;
    }
    assert(text::texts(parts@) =~= plain_texts(pages@));
    text::join(&parts, "\n\n")
}

/// Whether a parsed page is what becomes of a page and its blocks.
pub open spec fn is_parsed<R: Fn(&Vec<Block>) -> String>(
    parsed: ParsedPage,
    page: Page,
    blocks: Vec<Block>,
    stats: Option<PageComplexityStats>,
    config: LiteParseConfig,
    render: R,
) -> bool {
    &&& parsed.page_number == page.page_number
    &&& parsed.page_width == page.page_width
    &&& parsed.page_height == page.page_height
    &&& parsed.content_bounds == (if config.extract_content_bounds {
        page.content_bounds
    } else {
        None
    })
    &&& parsed.text@ == page_text(page.text_items@, page.text_items@.len() as int)
    &&& if config.markdown() {
        call_ensures(render, (&blocks,), parsed.markdown)
    } else {
        parsed.markdown@ == Seq::<char>::empty()
    }
    &&& parsed.text_items == page.text_items
    &&& parsed.projected_lines@.len() == 0
    &&& parsed.complexity == stats
    &&& parsed.blocks is None
    &&& parsed.annotations == page.annotations
    &&& parsed.regions@.len() == 0
    &&& parsed.figures@.len() == 0
    &&& parsed.extras.nothing()
}

/// Whether some parsed pages are what becomes of some pages and their blocks.
pub open spec fn are_parsed<R: Fn(&Vec<Block>) -> String>(
    parsed: Seq<ParsedPage>,
    pages: Seq<Page>,
    page_blocks: Seq<Vec<Block>>,
    stats: Seq<Option<PageComplexityStats>>,
    config: LiteParseConfig,
    render: R,
) -> bool {
    &&& parsed.len() == pages.len()
    &&& forall|p: int|
        0 <= p < parsed.len() ==> is_parsed(
            #[trigger] parsed[p],
            pages[p],
            page_blocks[p],
            stats[p],
            config,
            render,
        )
}

/// Whether a text is that of some parsed pages. Markdown of the whole document
/// is rendered from all of its blocks at once, where they are given: what stands
/// between two blocks depends on both.
pub open spec fn is_whole_text<R: Fn(&Vec<Block>) -> String>(
    whole: String,
    parsed: Seq<ParsedPage>,
    all_blocks: Option<Vec<Block>>,
    config: LiteParseConfig,
    render: R,
) -> bool {
    if config.markdown() {
        match all_blocks {
            Some(blocks) => call_ensures(render, (&blocks,), whole),
            None => whole@ == text::joined(markdowns(parsed), page_break()),
        }
    } else {
        whole@ == text::joined(plain_texts(parsed), paragraph_break())
    }
}

/// Whether a result holds nothing that only a PDF can give.
pub open spec fn no_pdf_facts(r: ParseResult, config: LiteParseConfig) -> bool {
    &&& r.page_errors@.len() == 0
    &&& r.screenshots@.len() == 0
    &&& r.image_error_count == 0
    &&& r.form_type is None
    &&& r.creator is None
    &&& r.producer is None
    &&& r.doc_meta is None
    &&& match r.xfa_packets {
        Some(packets) => config.extract_xfa_packets && packets@.len() == 0,
        None => !config.extract_xfa_packets,
    }
}

/// The parse of an office document from its own blocks. No text is projected:
/// the markdown is rendered from the blocks, page by page, and the plain text is
/// that of the items in reading order.
pub fn parse_from_native_blocks<R: Fn(&Vec<Block>) -> String>(
    config: &LiteParseConfig,
    pages: Vec<Page>,
    page_blocks: &Vec<Vec<Block>>,
    all_blocks: &Option<Vec<Block>>,
    outline: Vec<OutlineTarget>,
    images: Vec<ExtractedImage>,
    stats: &Vec<Option<PageComplexityStats>>,
    render: &R,
) -> (r: ParseResult)
    requires
        page_blocks@.len() == pages@.len(),
        stats@.len() == pages@.len(),
        forall|b: &Vec<Block>| call_requires(*render, (b,)),
    ensures
        are_parsed(r.pages@, pages@, page_blocks@, stats@, *config, *render),
        is_whole_text(r.text, r.pages@, *all_blocks, *config, *render),
        r.total_pages == pages@.len(),
        r.outline == outline,
        r.images == images,
        no_pdf_facts(r, *config),
{
    let markdown_out = config.is_markdown();
    let ghost all = pages@;
    let mut parsed: Vec<ParsedPage> = Vec::new();
    for page in it: pages
        invariant
            it.seq() == all,
            page_blocks@.len() == all.len(),
            stats@.len() == all.len(),
            markdown_out == config.markdown(),
            forall|b: &Vec<Block>| call_requires(*render, (b,)),
            parsed@.len() == it.index(),
            forall|p: int|
                0 <= p < parsed@.len() ==> is_parsed(
                    #[trigger] parsed@[p],
                    all[p],
                    page_blocks@[p],
                    stats@[p],
                    *config,
                    *render,
                ),
        {
        let p: usize = parsed.len();
        let text = native_page_text(&page.text_items);
        let markdown = if markdown_out {
            render(&page_blocks[p])
        } else {
            String::new()
        };
        parsed.push(
            ParsedPage {
                page_number: page.page_number,
                page_width: page.page_width,
                page_height: page.page_height,
                content_bounds: if config.extract_content_bounds {
                    page.content_bounds
                } else {
                    None
                },
                text,
                markdown,
                text_items: page.text_items,
                projected_lines: Vec::new(),
                regions: Vec::new(),
                figures: Vec::new(),
                complexity: stats[p],
                blocks: None,
                annotations: page.annotations,
                extras: PageExtras::default(),
            },
        );
    }
    let whole = if markdown_out {
        match all_blocks {
            Some(blocks) => render(blocks),
            None => join_markdown(&parsed),
        }
    } else {
        join_text(&parsed)
    };
    let xfa_packets: Option<Vec<XfaPacket>> = if config.extract_xfa_packets {
        Some(Vec::new())
    } else {
        None
    };
    ParseResult {
        total_pages: parsed.len(),
        pages: parsed,
        page_errors: Vec::new(),
        text: whole,
        outline,
        images,
        screenshots: Vec::new(),
        image_error_count: 0,
        form_type: None,
        creator: None,
        producer: None,
        doc_meta: None,
        xfa_packets,
    }
}

// ── Whole documents ────────────────────────────────────────────────────

/// What an office document gives for a parse.
#[derive(Debug)]
pub struct NativeParts {
    pub pages: Vec<Page>,
    /// The blocks of each page.
    pub page_blocks: Vec<Vec<Block>>,
    /// The blocks of the document, where they are rendered as a whole.
    pub all_blocks: Option<Vec<Block>>,
    pub outline: Vec<OutlineTarget>,
    pub images: Vec<ExtractedImage>,
    /// The boxes of the pictures on each page.
    pub rects: Vec<Vec<Rect>>,
    /// How many columns each page has.
    pub columns: Vec<usize>,
}

impl NativeParts {
    /// Whether there are blocks and columns for every page.
    pub open spec fn ok(self) -> bool {
        &&& self.page_blocks@.len() >= self.pages@.len()
        &&& self.columns@.len() >= self.pages@.len()
    }
}

/// Whether `after` is `before` with images that repeat others going by the
/// others' names in the markdown, where markdown is given out.
pub open spec fn is_canonical(before: ParseResult, after: ParseResult, markdown: bool) -> bool {
    if markdown {
        &&& after.text@ == images::canonical(before.text@, before.images@)
        &&& after.pages@.len() == before.pages@.len()
        &&& forall|p: int|
            0 <= p < before.pages@.len() ==> images::page_with_markdown(
                before.pages@[p],
                #[trigger] after.pages@[p],
                images::canonical(before.pages@[p].markdown@, before.images@),
            )
        &&& after == (ParseResult { pages: after.pages, text: after.text, ..before })
    } else {
        after == before
    }
}

/// Points the markdown of a result at the files of its images.
pub fn canonicalize_result(r: ParseResult, markdown: bool) -> (out: ParseResult)
    ensures
        is_canonical(r, out, markdown),
{
    let mut out = r;
    if markdown {
        images::rewrite_duplicate_image_refs(&mut out.pages, &mut out.text, &out.images);
    }
    out
}

/// Whether a result is what becomes of the pages of a document that are kept.
pub open spec fn is_selected_result<R: Fn(&Vec<Block>) -> String>(
    r: ParseResult,
    parts: NativeParts,
    stats: Seq<Option<PageComplexityStats>>,
    targets: Option<Vec<u32>>,
    config: LiteParseConfig,
    render: R,
) -> bool {
    let keep = kept_pages(parts.pages@, targets, config.max_pages);
    let n = keep.len() as int;
    &&& are_parsed(
        r.pages@,
        picked(parts.pages@, keep, n),
        picked(parts.page_blocks@, keep, n),
        picked(stats, keep, n),
        config,
        render,
    )
    &&& is_whole_text(
        r.text,
        r.pages@,
        if narrowed(parts.pages@, targets, config.max_pages) {
            None
        } else {
            parts.all_blocks
        },
        config,
        render,
    )
    &&& r.total_pages == parts.pages@.len()
    &&& r.outline == parts.outline
    &&& r.images == parts.images
    &&& no_pdf_facts(r, config)
}

/// Whether a result is the parse of a document.
pub open spec fn is_native_result<
    M: Fn(&Page, &Vec<Rect>, usize, usize) -> PageComplexityStats,
    R: Fn(&Vec<Block>) -> String,
>(
    r: ParseResult,
    parts: NativeParts,
    targets: Option<Vec<u32>>,
    config: LiteParseConfig,
    measure: M,
    render: R,
) -> bool {
    exists|stats: Seq<Option<PageComplexityStats>>, first: ParseResult|
        are_stats(
            stats,
            config.include_complexity,
            parts.pages@,
            parts.page_blocks@,
            parts.rects@,
            parts.columns@,
            measure,
        ) && #[trigger] is_selected_result(first, parts, stats, targets, config, render)
            && #[trigger] is_canonical(first, r, config.markdown())
}

/// The parse of an office document: how hard its pages are to read, which of
/// them are given out, and their text. A selection of pages that cannot be read
/// is the only thing that can go wrong. The outline stays that of the whole
/// document.
pub fn assemble_native<
    M: Fn(&Page, &Vec<Rect>, usize, usize) -> PageComplexityStats,
    R: Fn(&Vec<Block>) -> String,
>(
    config: &LiteParseConfig,
    parts: NativeParts,
    targets: Result<Option<Vec<u32>>, LiteParseError>,
    measure: &M,
    render: &R,
) -> (r: Result<ParseResult, LiteParseError>)
    requires
        parts.ok(),
        forall|p: &Page, b: &Vec<Rect>, t: usize, c: usize|
            call_requires(*measure, (p, b, t, c)),
        forall|b: &Vec<Block>| call_requires(*render, (b,)),
    ensures
        match (targets, r) {
            (Err(e), Err(f)) => e == f,
            (Ok(t), Ok(result)) => is_native_result(result, parts, t, *config, *measure, *render),
            _ => false,
        },
{
    let ghost whole = parts;
    let stats = native_complexity(
        config.include_complexity,
        &parts.pages,
        &parts.page_blocks,
        &parts.rects,
        &parts.columns,
        measure,
    );
    let targets = match targets {
        Ok(t) => t,
        Err(e) => {
            return Err(e);
        },
    };
    let ghost all_stats = stats@;
    let NativeParts { pages, page_blocks, all_blocks, outline, images, rects: _, columns: _ } =
        parts;
    let total_pages: usize = pages.len();
    let (pages, page_blocks, stats, filtered) = select_native_pages(
        pages,
        page_blocks,
        stats,
        &targets,
        config.max_pages,
    );
    let all_blocks = if filtered {
        None
    } else {
        all_blocks
    };
    let mut first = parse_from_native_blocks(
        config,
        pages,
        &page_blocks,
        &all_blocks,
        outline,
        images,
        &stats,
        render,
    );
    first.total_pages = total_pages;
    assert(is_selected_result(first, whole, all_stats, targets, *config, *render));
    let ghost mid = first;
    let result = canonicalize_result(first, config.is_markdown());
    assert(is_canonical(mid, result, config.markdown()));
    Ok(result)
}

/// A document without images that repeat others is parsed as its blocks are
/// rendered: the renaming changes no text.
pub proof fn distinct_images_leave_the_text(before: ParseResult, after: ParseResult, markdown: bool)
    requires
        is_canonical(before, after, markdown),
        forall|i: int|
            0 <= i < before.images@.len() ==> (#[trigger] before.images@[i]).duplicate_of is None,
    ensures
        after.text@ == before.text@,
        forall|p: int|
            0 <= p < before.pages@.len() ==> (#[trigger] after.pages@[p]).markdown@
                == before.pages@[p].markdown@,
{
    images::distinct_images_rename_nothing(before.text@, before.images@);
    assert forall|p: int| 0 <= p < before.pages@.len() implies (#[trigger] after.pages@[p]).markdown@
        == before.pages@[p].markdown@ by {
        images::distinct_images_rename_nothing(before.pages@[p].markdown@, before.images@);
    }
}

// ── The three kinds of documents ───────────────────────────────────────

/// A document's blocks without where they come from.
fn strip_sources<S>(tagged: Vec<(Block, S)>) -> (r: Vec<Block>)
    ensures
        r@ == blocks::untagged(tagged@),
{
    let ghost all = tagged@;
    let mut out: Vec<Block> = Vec::new();
    for t in it: tagged
        invariant
            it.seq() == all,
            out@ =~= blocks::untagged(all).take(it.index() as int),
        {
        let ghost before = out@;
        let (b, _) = t;
        out.push(b);
        assert(out@ =~= before.push(all[it.index() as int].0));
    }
    out
}

/// The images of a text document, where figures or images are wanted; none at
/// all otherwise.
pub fn collect_wanted_images(config: &LiteParseConfig, layouted: &Vec<LayoutedPage>) -> (r:
    NativeImages)
    requires
        layouted@.len() < u32::MAX,
        forall|p: int|
            0 <= p < layouted@.len() ==> (#[trigger] layouted@[p]).commands@.len() < u32::MAX,
    ensures
        if config.figures() || config.wants_images() {
            let all = docx_images::placements(layouted@, layouted@.len() as int);
            &&& docx_images::are_entries(r.images@, all, all.len() as int)
            &&& docx_images::are_figure_ids(r.figure_ids@, all, all.len() as int)
        } else {
            &&& r.images@.len() == 0
            &&& r.figure_ids@ == Map::<usize, VecDeque<(String, String)>>::empty()
        },
{
    if config.wants_figures() || config.effective_extract_images() {
        docx_images::collect_images(layouted)
    } else {
        NativeImages { images: Vec::new(), figure_ids: HashMap::new() }
    }
}

/// What a text document gives for a parse.
#[derive(Debug)]
pub struct DocxInput {
    pub layout: NativeLayout,
    pub commands: Vec<LayoutedPage>,
    /// The blocks and where they come from.
    pub tagged: Vec<(Block, BlockSource)>,
    /// The blocks of each page's header and footer.
    pub edges: Vec<(Vec<Block>, Vec<Block>)>,
    pub sections: Vec<SectionColumns>,
    /// The images found among the commands.
    pub images: Vec<ExtractedImage>,
}

/// Whether the parts of a parse are those of a text document. Headers and
/// footers are repeated page by page where they are kept, so the document is
/// then rendered page by page too.
pub open spec fn are_docx_parts(parts: NativeParts, d: DocxInput, config: LiteParseConfig) -> bool {
    let n = d.layout.pages@.len();
    let total = if n == 0 {
        1int
    } else {
        n as int
    };
    let shared = Seq::new(
        total as nat,
        |p: int|
            blocks::blocks_on(
                d.tagged@,
                d.layout.block_pages@,
                total,
                p,
                d.tagged@.len() as int,
            ),
    );
    &&& parts.pages == d.layout.pages
    &&& blocks::lists(parts.page_blocks@) == (if config.keep_headers_footers {
        framed(shared, d.edges@)
    } else {
        shared
    })
    &&& match parts.all_blocks {
        Some(all) => !config.keep_headers_footers && all@ == blocks::untagged(d.tagged@),
        None => config.keep_headers_footers,
    }
    &&& parts.outline == d.layout.outline
    &&& parts.images@ == (if config.wants_images() {
        d.images@
    } else {
        seq![]
    })
    &&& parts.rects@.len() == d.commands@.len()
    &&& forall|p: int|
        0 <= p < parts.rects@.len() ==> (#[trigger] parts.rects@[p])@ == docx_images::image_rects(
            d.commands@[p].commands@,
            d.commands@[p].commands@.len() as int,
        )
    &&& columns::are_column_counts(
        parts.columns@,
        columns::declared_columns(d.sections@),
        d.layout.block_pages@,
        n as int,
    )
}

/// The parts of a text document: its blocks shared out among its pages, with
/// headers and footers where they are kept.
pub fn docx_parts(config: &LiteParseConfig, d: DocxInput) -> (r: NativeParts)
    ensures
        are_docx_parts(r, d, *config),
        r.ok(),
{
    let ghost whole = d;
    let DocxInput { layout, commands, tagged, edges, sections, images } = d;
    let n: usize = layout.pages.len();
    let shared = blocks::split_blocks_by_page(&tagged, &layout.block_pages, n);
    let counts = columns::page_column_counts(&sections, &layout.block_pages, n);
    let rects = docx_images::image_rects_per_page(&commands);
    let ghost total = blocks::at_least_one(n);
    assert(blocks::lists(shared@) =~= Seq::new(
        total as nat,
        |p: int|
            blocks::blocks_on(
                whole.tagged@,
                whole.layout.block_pages@,
                total,
                p,
                whole.tagged@.len() as int,
            ),
    ));
    let page_blocks = if config.keep_headers_footers {
        add_headers_footers(shared, &edges)
    } else {
        shared
    };
    assert(blocks::lists(page_blocks@).len() == total);
    let all_blocks = if config.keep_headers_footers {
        None
    } else {
        Some(strip_sources(tagged))
    };
    let images = if config.effective_extract_images() {
        images
    } else {
        Vec::new()
    };
    NativeParts {
        pages: layout.pages,
        page_blocks,
        all_blocks,
        outline: layout.outline,
        images,
        rects,
        columns: counts,
    }
}

/// A list of `n` ones: a slide or a sheet has no columns of its own.
fn single_columns(n: usize) -> (r: Vec<usize>)
    ensures
        r@ == Seq::new(n as nat, |i: int| 1usize),
{
    let mut out: Vec<usize> = Vec::new();
    while out.len() < n
        invariant
            out@.len() <= n,
            forall|i: int| 0 <= i < out@.len() ==> #[trigger] out@[i] == 1,
        decreases n - out@.len(),
    {
        out.push(1);
    }
    assert(out@ =~= Seq::new(n as nat, |i: int| 1usize));
    out
}

/// Whether the parts of a parse are those of a deck.
pub open spec fn are_pptx_parts(
    parts: NativeParts,
    pages: Vec<Page>,
    layouts: Seq<LayoutedPage>,
    tagged: Seq<(Block, SlideSource)>,
    images: Vec<ExtractedImage>,
) -> bool {
    &&& parts.pages == pages
    &&& parts.page_blocks@.len() == pages@.len()
    &&& forall|p: int|
        0 <= p < parts.page_blocks@.len() ==> (#[trigger] parts.page_blocks@[p])@
            == blocks::slide_blocks(tagged, p, tagged.len() as int)
    &&& parts.all_blocks matches Some(all) && all@ == blocks::untagged(tagged)
    &&& blocks::are_outline(
        parts.outline@,
        blocks::all_headings(blocks::lists(parts.page_blocks@), parts.page_blocks@.len() as int),
    )
    &&& parts.images == images
    &&& parts.rects@.len() == layouts.len()
    &&& forall|p: int|
        0 <= p < parts.rects@.len() ==> (#[trigger] parts.rects@[p])@ == pptx_layout::blip_rects(
            layouts[p].commands@,
            layouts[p].commands@.len() as int,
        )
    &&& parts.columns@ == Seq::new(pages@.len(), |i: int| 1usize)
}

/// The parts of a deck: its blocks shared out among its slides, and an outline
/// of the slides' titles.
pub fn pptx_parts(
    pages: Vec<Page>,
    layouts: &Vec<LayoutedPage>,
    tagged: Vec<(Block, SlideSource)>,
    images: Vec<ExtractedImage>,
) -> (r: NativeParts)
    requires
        pages@.len() <= i32::MAX,
    ensures
        are_pptx_parts(r, pages, layouts@, tagged@, images),
        r.ok(),
{
    let n: usize = pages.len();
    let page_blocks = blocks::split_pptx_blocks_by_page(&tagged, n);
    let outline = blocks::pptx_slide_outline(&page_blocks);
    let rects = pptx_layout::image_rects_per_page(layouts);
    NativeParts {
        pages,
        page_blocks,
        all_blocks: Some(strip_sources(tagged)),
        outline,
        images,
        rects,
        columns: single_columns(n),
    }
}

/// The parts of a workbook, whose pages, blocks and outline it states itself.
pub fn xlsx_parts(
    pages: Vec<Page>,
    page_blocks: Vec<Vec<Block>>,
    all_blocks: Vec<Block>,
    outline: Vec<OutlineTarget>,
    images: Vec<ExtractedImage>,
    rects: Vec<Vec<Rect>>,
) -> (r: NativeParts)
    requires
        page_blocks@.len() >= pages@.len(),
    ensures
        r.pages == pages,
        r.page_blocks == page_blocks,
        r.all_blocks == Some(all_blocks),
        r.outline == outline,
        r.images == images,
        r.rects == rects,
        r.columns@ == Seq::new(pages@.len(), |i: int| 1usize),
        r.ok(),
{
    let columns = single_columns(pages.len());
    NativeParts {
        pages,
        page_blocks,
        all_blocks: Some(all_blocks),
        outline,
        images,
        rects,
        columns,
    }
}

/// Whether `r` is what a native parse comes to: nothing where a document with
/// hardly any text is left to the conversion, the mistake in the selection of
/// pages where there is one, and otherwise the parse of some parts that are
/// right for the document.
pub open spec fn is_native_parse<
    M: Fn(&Page, &Vec<Rect>, usize, usize) -> PageComplexityStats,
    R: Fn(&Vec<Block>) -> String,
>(
    r: Result<Option<ParseResult>, LiteParseError>,
    pages: Seq<Page>,
    right_parts: spec_fn(NativeParts) -> bool,
    targets: Result<Option<Vec<u32>>, LiteParseError>,
    config: LiteParseConfig,
    measure: M,
    render: R,
) -> bool {
    if config.ocr_enabled && sparse(pages) {
        r matches Ok(None)
    } else {
        match (targets, r) {
            (Err(e), Err(f)) => e == f,
            (Ok(t), Ok(Some(result))) => exists|parts: NativeParts| #[trigger]
                right_parts(parts) && is_native_result(result, parts, t, config, measure, render),
            _ => false,
        }
    }
}

/// The native parse of a text document.
pub fn parse_docx_native<
    M: Fn(&Page, &Vec<Rect>, usize, usize) -> PageComplexityStats,
    R: Fn(&Vec<Block>) -> String,
>(
    config: &LiteParseConfig,
    d: DocxInput,
    targets: Result<Option<Vec<u32>>, LiteParseError>,
    measure: &M,
    render: &R,
) -> (r: Result<Option<ParseResult>, LiteParseError>)
    requires
        forall|p: &Page, b: &Vec<Rect>, t: usize, c: usize|
            call_requires(*measure, (p, b, t, c)),
        forall|b: &Vec<Block>| call_requires(*render, (b,)),
    ensures
        is_native_parse(
            r,
            d.layout.pages@,
            (|parts: NativeParts| are_docx_parts(parts, d, *config)),
            targets,
            *config,
            *measure,
            *render,
        ),
{
    if gives_way_to_ocr(config, &d.layout.pages) {
        return Ok(None);
    }
    let ghost right = |parts: NativeParts| are_docx_parts(parts, d, *config);
    let parts = docx_parts(config, d);
    assert(right(parts));
    match assemble_native(config, parts, targets, measure, render) {
        Ok(result) => Ok(Some(result)),
        Err(e) => Err(e),
    }
}

/// The native parse of a deck.
pub fn parse_pptx_native<
    M: Fn(&Page, &Vec<Rect>, usize, usize) -> PageComplexityStats,
    R: Fn(&Vec<Block>) -> String,
>(
    config: &LiteParseConfig,
    pages: Vec<Page>,
    layouts: &Vec<LayoutedPage>,
    tagged: Vec<(Block, SlideSource)>,
    images: Vec<ExtractedImage>,
    targets: Result<Option<Vec<u32>>, LiteParseError>,
    measure: &M,
    render: &R,
) -> (r: Result<Option<ParseResult>, LiteParseError>)
    requires
        pages@.len() <= i32::MAX,
        forall|p: &Page, b: &Vec<Rect>, t: usize, c: usize|
            call_requires(*measure, (p, b, t, c)),
        forall|b: &Vec<Block>| call_requires(*render, (b,)),
    ensures
        is_native_parse(
            r,
            pages@,
            (|parts: NativeParts| are_pptx_parts(parts, pages, layouts@, tagged@, images)),
            targets,
            *config,
            *measure,
            *render,
        ),
{
    if gives_way_to_ocr(config, &pages) {
        return Ok(None);
    }
    let ghost right = |parts: NativeParts|
        are_pptx_parts(parts, pages, layouts@, tagged@, images);
    let parts = pptx_parts(pages, layouts, tagged, images);
    assert(right(parts));
    match assemble_native(config, parts, targets, measure, render) {
        Ok(result) => Ok(Some(result)),
        Err(e) => Err(e),
    }
}

/// The native parse of a workbook, whose pages, blocks and outline it states
/// itself.
pub fn parse_xlsx_native<
    M: Fn(&Page, &Vec<Rect>, usize, usize) -> PageComplexityStats,
    R: Fn(&Vec<Block>) -> String,
>(
    config: &LiteParseConfig,
    parts: NativeParts,
    targets: Result<Option<Vec<u32>>, LiteParseError>,
    measure: &M,
    render: &R,
) -> (r: Result<Option<ParseResult>, LiteParseError>)
    requires
        parts.ok(),
        forall|p: &Page, b: &Vec<Rect>, t: usize, c: usize|
            call_requires(*measure, (p, b, t, c)),
        forall|b: &Vec<Block>| call_requires(*render, (b,)),
    ensures
        is_native_parse(
            r,
            parts.pages@,
            (|p: NativeParts| p == parts),
            targets,
            *config,
            *measure,
            *render,
        ),
{
    if gives_way_to_ocr(config, &parts.pages) {
        return Ok(None);
    }
    let ghost right = |p: NativeParts| p == parts;
    assert(right(parts));
    match assemble_native(config, parts, targets, measure, render) {
        Ok(result) => Ok(Some(result)),
        Err(e) => Err(e),
    }
}

}
