//! Markdown blocks, and how they are shared out among pages.
use crate::text;
use crate::types::OutlineTarget;
use std::collections::HashMap;
use vstd::prelude::*;

verus! {

broadcast use vstd::std_specs::hash::group_hash_axioms;

/// One block of a document's markdown.
#[derive(PartialEq, Eq, Debug)]
pub enum Block {
    /// A heading of `level` 1 to 6.
    Heading { level: u8, text: String },
    Paragraph { text: String },
    /// A table of one text per grid cell, its rows already joined.
    Table { body: String },
    /// A table with spanning cells.
    MergedTable { body: String },
    HorizontalRule,
    /// A reference to the image `id`, stored as `format`.
    Figure { id: String, format: String },
}

impl Clone for Block {
    fn clone(&self) -> (r: Block)
        ensures
            r == *self,
    {
        match self {
            Block::Heading { level, text } => Block::Heading { level: *level, text: text.clone() },
            Block::Paragraph { text } => Block::Paragraph { text: text.clone() },
            Block::Table { body } => Block::Table { body: body.clone() },
            Block::MergedTable { body } => Block::MergedTable { body: body.clone() },
            Block::HorizontalRule => Block::HorizontalRule,
            Block::Figure { id, format } => Block::Figure {
                id: id.clone(),
                format: format.clone(),
            },
        }
    }
}

/// The lists of a list of lists, in contracts.
pub open spec fn lists<T>(v: Seq<Vec<T>>) -> Seq<Seq<T>> {
    v.map_values(|b: Vec<T>| b@)
}

// ── Tables ─────────────────────────────────────────────────────────────

/// Whether a block is a table.
pub open spec fn is_table(b: Block) -> bool {
    b is Table || b is MergedTable
}

/// How many of the first `n` blocks are tables.
pub open spec fn tables_upto(blocks: Seq<Block>, n: int) -> int
    decreases n,
{
    if n <= 0 {
        0
    } else {
        tables_upto(blocks, n - 1) + (if is_table(blocks[n - 1]) {
            1int
        } else {
            0
        })
    }
}

/// How many of some blocks are tables.
pub fn count_tables(blocks: &Vec<Block>) -> (r: usize)
    ensures
        r == tables_upto(blocks@, blocks@.len() as int),
{
    let mut n: usize = 0;
    let mut i: usize = 0;
    while i < blocks.len()
        invariant
            i <= blocks@.len(),
            n <= i,
            n == tables_upto(blocks@, i as int),
        decreases blocks@.len() - i,
    {
        match &blocks[i] {
            Block::Table { .. } | Block::MergedTable { .. } => {
                n += 1;
            },
            _ => {},
        }
        i += 1;
    }
    n
}

// ── Documents ──────────────────────────────────────────────────────────

/// Where a document's block comes from.
#[derive(Clone, Copy, PartialEq, Eq, Structural, Debug)]
pub enum BlockSource {
    /// The body block with this number.
    Body(usize),
    /// A note.
    Note,
}

/// The page of a block, where the blocks before it reach up to `current`. A
/// block never goes back to an earlier page; one that was laid out nowhere stays
/// on the current page, and a note goes to the last one.
pub open spec fn block_page(
    source: BlockSource,
    block_pages: Map<usize, usize>,
    n_pages: int,
    current: int,
) -> int {
    let page = match source {
        BlockSource::Body(i) => if block_pages.contains_key(i) && block_pages[i] > current {
            block_pages[i] as int
        } else {
            current
        },
        BlockSource::Note => n_pages - 1,
    };
    if page < n_pages - 1 {
        page
    } else {
        n_pages - 1
    }
}

/// The page that the first `n` blocks reach up to.
pub open spec fn reached(
    tagged: Seq<(Block, BlockSource)>,
    block_pages: Map<usize, usize>,
    n_pages: int,
    n: int,
) -> int
    decreases n,
{
    if n <= 0 {
        0
    } else {
        block_page(
            tagged[n - 1].1,
            block_pages,
            n_pages,
            reached(tagged, block_pages, n_pages, n - 1),
        )
    }
}

/// The blocks of page `p` among the first `n`.
pub open spec fn blocks_on(
    tagged: Seq<(Block, BlockSource)>,
    block_pages: Map<usize, usize>,
    n_pages: int,
    p: int,
    n: int,
) -> Seq<Block>
    decreases n,
{
    if n <= 0 {
        seq![]
    } else {
        let before = blocks_on(tagged, block_pages, n_pages, p, n - 1);
        if reached(tagged, block_pages, n_pages, n) == p {
            before.push(tagged[n - 1].0)
        } else {
            before
        }
    }
}

/// How many pages there are to share blocks out among: at least one.
pub open spec fn at_least_one(n_pages: usize) -> int {
    if n_pages == 0 {
        1
    } else {
        n_pages as int
    }
}

/// A list of `n` empty lists.
fn empty_lists(n: usize) -> (r: Vec<Vec<Block>>)
    ensures
        r@.len() == n,
        forall|p: int| 0 <= p < n ==> (#[trigger] r@[p])@ == Seq::<Block>::empty(),
{
    let mut out: Vec<Vec<Block>> = Vec::new();
    let mut i: usize = 0;
    while i < n
        invariant
            i <= n,
            out@.len() == i,
            forall|p: int| 0 <= p < i ==> (#[trigger] out@[p])@ == Seq::<Block>::empty(),
        decreases n - i,
    {
        out.push(Vec::new());
        i += 1;
    }
    out
}

/// Shares a document's blocks out among its pages, by the page on which each
/// block of the body starts. One after the other, the pages' lists give the
/// blocks in their order.
pub fn split_blocks_by_page(
    tagged: &Vec<(Block, BlockSource)>,
    block_pages: &HashMap<usize, usize>,
    n_pages: usize,
) -> (r: Vec<Vec<Block>>)
    ensures
        r@.len() == at_least_one(n_pages),
        forall|p: int|
            0 <= p < r@.len() ==> (#[trigger] r@[p])@ == blocks_on(
                tagged@,
                block_pages@,
                at_least_one(n_pages),
                p,
                tagged@.len() as int,
            ),
{
    let total: usize = if n_pages == 0 {
        1
    } else {
        n_pages
    };
    let mut out = empty_lists(total);
    let mut current: usize = 0;
    let mut i: usize = 0;
    while i < tagged.len()
        invariant
            i <= tagged@.len(),
            1 <= total,
            total == at_least_one(n_pages),
            out@.len() == total,
            current < total,
            current == reached(tagged@, block_pages@, total as int, i as int),
            forall|p: int|
                0 <= p < total ==> (#[trigger] out@[p])@ == blocks_on(
                    tagged@,
                    block_pages@,
                    total as int,
                    p,
                    i as int,
                ),
        decreases tagged@.len() - i,
    {
        let ghost before = out@;
        let page: usize = match tagged[i].1 {
            BlockSource::Body(k) => match block_pages.get(&k) {
                Some(p) => if *p > current {
                    *p
                } else {
                    current
                },
                None => current,
            },
            BlockSource::Note => total - 1,
        };
        current = if page < total - 1 {
            page
        } else {
            total - 1
        };
        assert(current == reached(tagged@, block_pages@, total as int, i + 1));
        out[current].push(tagged[i].0.clone());
        assert forall|p: int| 0 <= p < total implies (#[trigger] out@[p])@ == blocks_on(
            tagged@,
            block_pages@,
            total as int,
            p,
            i + 1,
        ) by {
            assert(before[p]@ == blocks_on(tagged@, block_pages@, total as int, p, i as int));
        }
        i += 1;
    }
    out
}

/// The lists of the first `n` pages, one after the other.
pub open spec fn flattened(pages: Seq<Seq<Block>>, n: int) -> Seq<Block>
    decreases n,
{
    if n <= 0 {
        seq![]
    } else {
        flattened(pages, n - 1) + pages[n - 1]
    }
}

/// The blocks without where they come from.
pub open spec fn untagged<S>(tagged: Seq<(Block, S)>) -> Seq<Block> {
    tagged.map_values(|t: (Block, S)| t.0)
}

proof fn lemma_reached(
    tagged: Seq<(Block, BlockSource)>,
    block_pages: Map<usize, usize>,
    n_pages: int,
    n: int,
)
    requires
        1 <= n_pages,
    ensures
        0 <= reached(tagged, block_pages, n_pages, n) < n_pages,
        n > 0 ==> reached(tagged, block_pages, n_pages, n - 1) <= reached(
            tagged,
            block_pages,
            n_pages,
            n,
        ),
    decreases n,
{
    if n > 0 {
        lemma_reached(tagged, block_pages, n_pages, n - 1);
    }
}

spec fn sheets(
    tagged: Seq<(Block, BlockSource)>,
    block_pages: Map<usize, usize>,
    n_pages: int,
    n: int,
) -> Seq<Seq<Block>> {
    Seq::new(n_pages as nat, |p: int| blocks_on(tagged, block_pages, n_pages, p, n))
}

proof fn lemma_flattened_ext(a: Seq<Seq<Block>>, b: Seq<Seq<Block>>, n: int)
    requires
        forall|p: int| 0 <= p < n ==> a[p] == b[p],
    ensures
        flattened(a, n) == flattened(b, n),
    decreases n,
{
    if n > 0 {
        lemma_flattened_ext(a, b, n - 1);
    }
}

proof fn lemma_flattened_tail(pages: Seq<Seq<Block>>, k: int, n: int)
    requires
        0 <= k <= n <= pages.len(),
        forall|p: int| k <= p < n ==> (#[trigger] pages[p]).len() == 0,
    ensures
        flattened(pages, n) == flattened(pages, k),
    decreases n,
{
    if n > k {
        lemma_flattened_tail(pages, k, n - 1);
        assert(pages[n - 1].len() == 0);
        assert(flattened(pages, n) =~= flattened(pages, n - 1));
    }
}

proof fn lemma_empty_past(
    tagged: Seq<(Block, BlockSource)>,
    block_pages: Map<usize, usize>,
    n_pages: int,
    p: int,
    n: int,
)
    requires
        1 <= n_pages,
        0 <= n,
        reached(tagged, block_pages, n_pages, n) < p,
    ensures
        blocks_on(tagged, block_pages, n_pages, p, n).len() == 0,
    decreases n,
{
    if n > 0 {
        lemma_reached(tagged, block_pages, n_pages, n);
        lemma_empty_past(tagged, block_pages, n_pages, p, n - 1);
    }
}

proof fn lemma_flattened_prefix(
    tagged: Seq<(Block, BlockSource)>,
    block_pages: Map<usize, usize>,
    n_pages: int,
    n: int,
)
    requires
        1 <= n_pages,
        0 <= n <= tagged.len(),
    ensures
        flattened(sheets(tagged, block_pages, n_pages, n), n_pages) == untagged(tagged).take(n),
    decreases n,
{
    let now = sheets(tagged, block_pages, n_pages, n);
    if n == 0 {
        assert forall|p: int| 0 <= p < n_pages implies (#[trigger] now[p]).len() == 0 by {}
        lemma_flattened_tail(now, 0, n_pages);
        assert(untagged(tagged).take(0) =~= Seq::<Block>::empty());
    } else {
        let then = sheets(tagged, block_pages, n_pages, n - 1);
        lemma_flattened_prefix(tagged, block_pages, n_pages, n - 1);
        lemma_reached(tagged, block_pages, n_pages, n);
        let r = reached(tagged, block_pages, n_pages, n);
        let b = tagged[n - 1].0;
        lemma_flattened_ext(now, then, r);
        assert forall|p: int| r + 1 <= p < n_pages implies (#[trigger] now[p]).len() == 0 by {
            lemma_empty_past(tagged, block_pages, n_pages, p, n);
        }
        assert forall|p: int| r + 1 <= p < n_pages implies (#[trigger] then[p]).len() == 0 by {
            lemma_empty_past(tagged, block_pages, n_pages, p, n - 1);
        }
        lemma_flattened_tail(now, r + 1, n_pages);
        lemma_flattened_tail(then, r + 1, n_pages);
        assert(now[r] == then[r].push(b));
        assert(flattened(now, r + 1) =~= flattened(then, r + 1).push(b));
        assert(untagged(tagged).take(n) =~= untagged(tagged).take(n - 1).push(b));
    }
}

/// One after the other, the pages' lists give all the blocks in their order, so
/// a document's pages say together what the document says.
pub proof fn pages_reproduce_document(
    tagged: Seq<(Block, BlockSource)>,
    block_pages: Map<usize, usize>,
    n_pages: usize,
    pages: Seq<Seq<Block>>,
)
    requires
        pages.len() == at_least_one(n_pages),
        forall|p: int|
            0 <= p < pages.len() ==> #[trigger] pages[p] == blocks_on(
                tagged,
                block_pages,
                at_least_one(n_pages),
                p,
                tagged.len() as int,
            ),
    ensures
        flattened(pages, pages.len() as int) == untagged(tagged),
{
    let total = at_least_one(n_pages);
    lemma_flattened_prefix(tagged, block_pages, total, tagged.len() as int);
    lemma_flattened_ext(pages, sheets(tagged, block_pages, total, tagged.len() as int), total);
    assert(untagged(tagged).take(tagged.len() as int) =~= untagged(tagged));
}

/// Notes come last: on the last page, after everything that comes before them.
pub proof fn notes_go_to_the_last_page(
    tagged: Seq<(Block, BlockSource)>,
    block_pages: Map<usize, usize>,
    n_pages: usize,
    i: int,
)
    requires
        0 <= i < tagged.len(),
        tagged[i].1 == BlockSource::Note,
    ensures
        reached(tagged, block_pages, at_least_one(n_pages), i + 1) == at_least_one(n_pages) - 1,
{
}

// ── Decks ──────────────────────────────────────────────────────────────

/// Where a deck's block comes from: the slide with this number, counted from 0.
#[derive(Clone, Copy, PartialEq, Eq, Structural, Debug)]
pub enum SlideSource {
    Slide(usize),
    Notes(usize),
    Diagram(usize),
}

impl SlideSource {
    /// The slide, in contracts.
    pub open spec fn slide(self) -> usize {
        match self {
            SlideSource::Slide(n) => n,
            SlideSource::Notes(n) => n,
            SlideSource::Diagram(n) => n,
        }
    }
}

/// The blocks of slide `p` among the first `n`.
pub open spec fn slide_blocks(tagged: Seq<(Block, SlideSource)>, p: int, n: int) -> Seq<Block>
    decreases n,
{
    if n <= 0 {
        seq![]
    } else {
        let before = slide_blocks(tagged, p, n - 1);
        if tagged[n - 1].1.slide() == p {
            before.push(tagged[n - 1].0)
        } else {
            before
        }
    }
}

/// Shares a deck's blocks out among its slides. What a slide's notes and
/// diagrams say belongs to the slide.
pub fn split_pptx_blocks_by_page(tagged: &Vec<(Block, SlideSource)>, n_pages: usize) -> (r: Vec<
    Vec<Block>,
>)
    ensures
        r@.len() == n_pages,
        forall|p: int|
            0 <= p < n_pages ==> (#[trigger] r@[p])@ == slide_blocks(
                tagged@,
                p,
                tagged@.len() as int,
            ),
{
    let mut out = empty_lists(n_pages);
    let mut i: usize = 0;
    while i < tagged.len()
        invariant
            i <= tagged@.len(),
            out@.len() == n_pages,
            forall|p: int|
                0 <= p < n_pages ==> (#[trigger] out@[p])@ == slide_blocks(tagged@, p, i as int),
        decreases tagged@.len() - i,
    {
        let ghost before = out@;
        let slide: usize = match tagged[i].1 {
            SlideSource::Slide(n) | SlideSource::Notes(n) | SlideSource::Diagram(n) => n,
        };
        if slide < out.len() {
            out[slide].push(tagged[i].0.clone());
        }
        assert forall|p: int| 0 <= p < n_pages implies (#[trigger] out@[p])@ == slide_blocks(
            tagged@,
            p,
            i + 1,
        ) by {
            assert(before[p]@ == slide_blocks(tagged@, p, i as int));
        }
        i += 1;
    }
    out
}

/// Whether blocks come slide after slide.
pub open spec fn in_slide_order(tagged: Seq<(Block, SlideSource)>) -> bool {
    forall|i: int, j: int|
        0 <= i <= j < tagged.len() ==> (#[trigger] tagged[i]).1.slide() <= (
        #[trigger] tagged[j]).1.slide()
}

spec fn slide_sheets(tagged: Seq<(Block, SlideSource)>, n_pages: int, n: int) -> Seq<Seq<Block>> {
    Seq::new(n_pages as nat, |p: int| slide_blocks(tagged, p, n))
}

proof fn lemma_slides_past(tagged: Seq<(Block, SlideSource)>, p: int, n: int)
    requires
        0 <= n <= tagged.len(),
        forall|i: int| 0 <= i < n ==> (#[trigger] tagged[i]).1.slide() < p,
    ensures
        slide_blocks(tagged, p, n).len() == 0,
    decreases n,
{
    if n > 0 {
        lemma_slides_past(tagged, p, n - 1);
        assert(tagged[n - 1].1.slide() < p);
    }
}

proof fn lemma_slides_prefix(tagged: Seq<(Block, SlideSource)>, n_pages: int, n: int)
    requires
        0 <= n <= tagged.len(),
        in_slide_order(tagged),
        forall|i: int| 0 <= i < tagged.len() ==> (#[trigger] tagged[i]).1.slide() < n_pages,
    ensures
        flattened(slide_sheets(tagged, n_pages, n), n_pages) == untagged(tagged).take(n),
    decreases n,
{
    let now = slide_sheets(tagged, n_pages, n);
    if n == 0 {
        if n_pages > 0 {
            assert forall|p: int| 0 <= p < n_pages implies (#[trigger] now[p]).len() == 0 by {}
            lemma_flattened_tail(now, 0, n_pages);
        }
        assert(untagged(tagged).take(0) =~= Seq::<Block>::empty());
    } else {
        let then = slide_sheets(tagged, n_pages, n - 1);
        lemma_slides_prefix(tagged, n_pages, n - 1);
        let r = tagged[n - 1].1.slide() as int;
        let b = tagged[n - 1].0;
        lemma_flattened_ext(now, then, r);
        assert forall|p: int| r + 1 <= p < n_pages implies (#[trigger] now[p]).len() == 0 by {
            lemma_slides_past(tagged, p, n);
        }
        assert forall|p: int| r + 1 <= p < n_pages implies (#[trigger] then[p]).len() == 0 by {
            lemma_slides_past(tagged, p, n - 1);
        }
        lemma_flattened_tail(now, r + 1, n_pages);
        lemma_flattened_tail(then, r + 1, n_pages);
        assert(now[r] == then[r].push(b));
        assert(flattened(now, r + 1) =~= flattened(then, r + 1).push(b));
        assert(untagged(tagged).take(n) =~= untagged(tagged).take(n - 1).push(b));
    }
}

/// Where a deck's blocks come slide after slide, the slides' lists one after the
/// other give all of them in their order.
pub proof fn slides_reproduce_deck(
    tagged: Seq<(Block, SlideSource)>,
    n_pages: usize,
    pages: Seq<Seq<Block>>,
)
    requires
        in_slide_order(tagged),
        forall|i: int| 0 <= i < tagged.len() ==> (#[trigger] tagged[i]).1.slide() < n_pages,
        pages.len() == n_pages,
        forall|p: int|
            0 <= p < n_pages ==> #[trigger] pages[p] == slide_blocks(
                tagged,
                p,
                tagged.len() as int,
            ),
    ensures
        flattened(pages, n_pages as int) == untagged(tagged),
{
    lemma_slides_prefix(tagged, n_pages as int, tagged.len() as int);
    lemma_flattened_ext(
        pages,
        slide_sheets(tagged, n_pages as int, tagged.len() as int),
        n_pages as int,
    );
    assert(untagged(tagged).take(tagged.len() as int) =~= untagged(tagged));
}

// ── Outlines ───────────────────────────────────────────────────────────

/// Whether a block is a heading with something to read in it.
pub open spec fn titles(b: Block) -> bool {
    b matches Block::Heading { level, text } && text::trimmed(text@).len() > 0
}

/// The outline entry of a heading. Slides have no hierarchy of headings, so
/// every entry is of the first level.
pub open spec fn is_entry(e: OutlineTarget, b: Block, page: int) -> bool {
    b matches Block::Heading { text, .. } && e.level == 1 && e.title@ == text@ && e.page_index
        == page && e.y_pdf is None
}

/// The headings among the first `n` blocks of a page.
pub open spec fn headings_upto(blocks: Seq<Block>, page: int, n: int) -> Seq<(Block, int)>
    decreases n,
{
    if n <= 0 {
        seq![]
    } else if titles(blocks[n - 1]) {
        headings_upto(blocks, page, n - 1).push((blocks[n - 1], page))
    } else {
        headings_upto(blocks, page, n - 1)
    }
}

/// The headings of the first `n` pages.
pub open spec fn all_headings(pages: Seq<Seq<Block>>, n: int) -> Seq<(Block, int)>
    decreases n,
{
    if n <= 0 {
        seq![]
    } else {
        all_headings(pages, n - 1) + headings_upto(
            pages[n - 1],
            n - 1,
            pages[n - 1].len() as int,
        )
    }
}

/// Whether some outline entries are those of some headings.
pub open spec fn are_outline(out: Seq<OutlineTarget>, headings: Seq<(Block, int)>) -> bool {
    &&& out.len() == headings.len()
    &&& forall|k: int|
        0 <= k < out.len() ==> is_entry(#[trigger] out[k], headings[k].0, headings[k].1)
}

/// The outline of a deck: an entry of the first level for each slide title, all
/// found by their page alone.
pub fn pptx_slide_outline(page_blocks: &Vec<Vec<Block>>) -> (r: Vec<OutlineTarget>)
    requires
        page_blocks@.len() <= i32::MAX,
    ensures
        are_outline(r@, all_headings(lists(page_blocks@), page_blocks@.len() as int)),
{
    let mut out: Vec<OutlineTarget> = Vec::new();
    let mut p: usize = 0;
    while p < page_blocks.len()
        invariant
            p <= page_blocks@.len() <= i32::MAX,
            are_outline(out@, all_headings(lists(page_blocks@), p as int)),
        decreases page_blocks@.len() - p,
    {
        let blocks = &page_blocks[p];
        let ghost before = all_headings(lists(page_blocks@), p as int);
        assert(lists(page_blocks@)[p as int] == blocks@);
        let mut i: usize = 0;
        assert(before + headings_upto(blocks@, p as int, 0) =~= before);
        while i < blocks.len()
            invariant
                i <= blocks@.len(),
                p < page_blocks@.len() <= i32::MAX,
                are_outline(out@, before + headings_upto(blocks@, p as int, i as int)),
            decreases blocks@.len() - i,
        {
            let ghost so_far = before + headings_upto(blocks@, p as int, i as int);
            if let Block::Heading { text, .. } = &blocks[i] {
                if !text::is_blank(text.as_str()) {
                    out.push(
                        OutlineTarget {
                            level: 1,
                            title: text.clone(),
                            page_index: p as i32,
                            y_pdf: None,
                        },
                    );
                    assert(before + headings_upto(blocks@, p as int, i + 1) =~= so_far.push(
                        (blocks@[i as int], p as int),
                    ));
                }
            }
            i += 1;
        }
        p += 1;
    }
    out
}

}
