//! From the slides of a deck to pages: one page per slide, with the slide's
//! ink, its texts, and a count of what could not be placed.
use crate::docx_layout;
use crate::draw_command::{DrawCommand, LayoutedPage, ResolvedFill, TransformMark};
use crate::geometry::{PtSize, Rect};
use crate::pptx_paint;
use crate::pptx_paint::{Background, FillView, PaintShape, Rung, SlideTally};
use crate::pptx_text;
use crate::pptx_text::{PlacedBody, ShapePlacement, SlideText, TextShape};
use crate::types::{Page, PageExtras, TextItem};
use vstd::prelude::*;

verus! {

/// A shape in reading order, and where it comes from.
#[derive(Debug)]
pub struct ReadShape {
    pub shape: TextShape,
    /// Whether it belongs to the slide's layout or master.
    pub inherited: bool,
    /// Whether it stands for a picture, not for a text.
    pub figure: bool,
}

/// What one slide has to show.
#[derive(Debug)]
pub struct SlideInput {
    pub background: Option<Background>,
    /// The shapes of the master and of the layout, lowest first.
    pub inherited: Vec<Vec<PaintShape>>,
    /// The slide's own shapes, in document order.
    pub shapes: Vec<PaintShape>,
    /// All shapes with texts, in reading order.
    pub reading: Vec<ReadShape>,
    pub declines_master: bool,
    pub declines_layout: bool,
}

/// The geometry of a deck. All lists have one entry per slide.
#[derive(Debug)]
pub struct SlideGeometry {
    pub pages: Vec<Page>,
    /// The same slides as commands.
    pub layouts: Vec<LayoutedPage>,
    /// Where the texts of each slide landed.
    pub placements: Vec<Vec<ShapePlacement>>,
    /// The place of each slide's background among its commands.
    pub background_commands: Vec<Option<usize>>,
    pub tally: SlideTally,
}

// ── One slide ──────────────────────────────────────────────────────────

/// The inherited shapes of the first `n` rungs that are painted.
pub open spec fn rung_list(rungs: Seq<Vec<PaintShape>>, n: int) -> Seq<
    (PaintShape, Option<FillView>),
>
    decreases n,
{
    if n <= 0 {
        seq![]
    } else {
        rung_list(rungs, n - 1) + pptx_paint::painted_list(
            rungs[n - 1]@,
            rungs[n - 1]@.len() as int,
            None,
        )
    }
}

/// What is counted of the inherited shapes of the first `n` rungs.
pub open spec fn rung_tally(t: SlideTally, rungs: Seq<Vec<PaintShape>>, n: int) -> SlideTally
    decreases n,
{
    if n <= 0 {
        t
    } else {
        pptx_paint::paint_tallies(
            rung_tally(t, rungs, n - 1),
            rungs[n - 1]@,
            rungs[n - 1]@.len() as int,
            Rung::Inherited,
            None,
        )
    }
}

/// The shapes of a slide that are painted, lowest first: what it inherits lies
/// under what is its own.
pub open spec fn ink_list(slide: SlideInput) -> Seq<(PaintShape, Option<FillView>)> {
    rung_list(slide.inherited@, slide.inherited@.len() as int) + pptx_paint::painted_list(
        slide.shapes@,
        slide.shapes@.len() as int,
        None,
    )
}

/// The bodies of the first `n` shapes in reading order.
pub open spec fn read_bodies(reading: Seq<ReadShape>, n: int) -> Seq<PlacedBody>
    decreases n,
{
    if n <= 0 {
        seq![]
    } else {
        read_bodies(reading, n - 1) + pptx_text::bodies_of(reading[n - 1].shape)
    }
}

/// What is counted of the texts of the first `n` shapes in reading order.
pub open spec fn read_tally(
    t: SlideTally,
    reading: Seq<ReadShape>,
    n: int,
    background: Option<u32>,
) -> SlideTally
    decreases n,
{
    if n <= 0 {
        t
    } else {
        let u = read_tally(t, reading, n - 1, background);
        let r = reading[n - 1];
        let v = if r.inherited && !r.figure {
            SlideTally { inherited_text_laid_out: pptx_paint::up(u.inherited_text_laid_out), ..u }
        } else {
            u
        };
        pptx_text::text_tally(v, r.shape, background)
    }
}

/// What is counted of a slide.
pub open spec fn slide_tally(t: SlideTally, slide: Option<SlideInput>, page_size: PtSize)
    -> SlideTally {
    match slide {
        None => t,
        Some(s) => {
            let a = pptx_paint::background_tally(t, s.background, page_size);
            let b = rung_tally(a, s.inherited@, s.inherited@.len() as int);
            let c = pptx_paint::paint_tallies(
                b,
                s.shapes@,
                s.shapes@.len() as int,
                Rung::Slide,
                None,
            );
            let d = read_tally(
                c,
                s.reading@,
                s.reading@.len() as int,
                pptx_paint::background_color(s.background, page_size),
            );
            SlideTally {
                slides_declining_master: if s.declines_master {
                    pptx_paint::up(d.slides_declining_master)
                } else {
                    d.slides_declining_master
                },
                slides_declining_layout: if s.declines_layout {
                    pptx_paint::up(d.slides_declining_layout)
                } else {
                    d.slides_declining_layout
                },
                ..d
            }
        },
    }
}

/// Whether the shapes of a slide are well-formed.
pub open spec fn slide_ok(slide: Option<SlideInput>) -> bool {
    slide matches Some(s) ==> forall|i: int|
        0 <= i < s.reading@.len() ==> pptx_text::shape_ok((#[trigger] s.reading@[i]).shape)
}

/// Whether `commands` draw a slide: its background first, then its shapes,
/// then its texts in reading order; `background` is the place of the first.
pub open spec fn draws_slide(
    commands: Seq<DrawCommand>,
    background: Option<usize>,
    slide: SlideInput,
    page_size: PtSize,
) -> bool {
    let b = if background is Some {
        1int
    } else {
        0
    };
    let list = ink_list(slide);
    let bodies = read_bodies(slide.reading@, slide.reading@.len() as int);
    let texts = pptx_text::body_commands(bodies, bodies.len() as int);
    &&& background is Some <==> pptx_paint::background_painted(slide.background, page_size)
    &&& background matches Some(at) ==> at == 0 && commands.len() > 0 && pptx_paint::is_backdrop(
        commands[0],
        slide.background->0.fill@,
        page_size,
    )
    &&& commands.len() == b + list.len() + texts.len()
    &&& pptx_paint::are_shape_paths(commands.subrange(b, b + list.len()), list)
    &&& commands.skip(b + list.len()) == texts
}

/// Whether a page, its commands and its notes are those of a slide.
pub open spec fn is_slide(
    page: Page,
    layout: LayoutedPage,
    placements: Seq<ShapePlacement>,
    background: Option<usize>,
    slide: Option<SlideInput>,
    index: int,
    page_size: PtSize,
) -> bool {
    &&& page.page_number == index + 1
    &&& page.page_width == page_size.width
    &&& page.page_height == page_size.height
    &&& page.content_bounds == docx_layout::item_bounds(page.text_items@)
    &&& page.annotations is None
    &&& page.extras.nothing()
    &&& layout.page_size == page_size
    &&& layout.block_starts@.len() == 0
    &&& layout.header_blocks@.len() == 0
    &&& layout.footer_blocks@.len() == 0
    &&& match slide {
        None => {
            &&& page.text_items@.len() == 0
            &&& layout.commands@.len() == 0
            &&& placements.len() == 0
            &&& background is None
        },
        Some(s) => {
            let bodies = read_bodies(s.reading@, s.reading@.len() as int);
            let n = bodies.len() as int;
            &&& draws_slide(layout.commands@, background, s, page_size)
            &&& pptx_text::are_body_items(page.text_items@, bodies, n)
            &&& placements == pptx_text::placements_of(
                bodies,
                n,
                0,
                layout.commands@.len() - pptx_text::body_commands(bodies, n).len(),
            )
        },
    }
}

/// Paints what a slide inherits, lowest rung first.
fn paint_rungs(
    rungs: Vec<Vec<PaintShape>>,
    tally: &mut SlideTally,
    commands: &mut Vec<DrawCommand>,
)
    ensures
        *final(tally) == rung_tally(*old(tally), rungs@, rungs@.len() as int),
        old(commands)@.is_prefix_of(final(commands)@),
        pptx_paint::are_shape_paths(
            final(commands)@.skip(old(commands)@.len() as int),
            rung_list(rungs@, rungs@.len() as int),
        ),
{
    let ghost start = commands@;
    let ghost counted = *tally;
    let ghost all = rungs@;
    let none: Option<ResolvedFill> = None;
    assert(commands@.skip(start.len() as int) =~= seq![]);
    for rung in it: rungs
        invariant
            it.seq() == all,
            none is None,
            *tally == rung_tally(counted, all, it.index() as int),
            start.is_prefix_of(commands@),
            pptx_paint::are_shape_paths(
                commands@.skip(start.len() as int),
                rung_list(all, it.index() as int),
            ),
    {
        let ghost k = it.index() as int;
        let ghost before = commands@;
        assert(rung == all[k]);
        pptx_paint::paint_shapes(rung, Rung::Inherited, &none, tally, commands);
        proof {
            let head = before.skip(start.len() as int);
            let tail = commands@.skip(before.len() as int);
            assert(commands@.skip(start.len() as int) =~= head + tail);
        }
    }
}

/// Lays out the texts of a slide in reading order.
fn read_shapes(reading: Vec<ReadShape>, state: &mut SlideText)
    requires
        forall|i: int|
            0 <= i < reading@.len() ==> pptx_text::shape_ok((#[trigger] reading@[i]).shape),
    ensures
        pptx_text::extends(
            *old(state),
            *final(state),
            read_bodies(reading@, reading@.len() as int),
        ),
        final(state).tally == read_tally(
            old(state).tally,
            reading@,
            reading@.len() as int,
            old(state).background,
        ),
{
    let ghost start = *state;
    let ghost all = reading@;
    proof {
        pptx_text::lemma_extends_none(start, *state);
        assert(read_bodies(all, 0) =~= seq![]);
    }
    for read in it: reading
        invariant
            it.seq() == all,
            forall|i: int|
                0 <= i < all.len() ==> pptx_text::shape_ok((#[trigger] all[i]).shape),
            pptx_text::extends(start, *state, read_bodies(all, it.index() as int)),
            state.tally == read_tally(
                start.tally,
                all,
                it.index() as int,
                start.background,
            ),
    {
        let ghost k = it.index() as int;
        let ghost mid = *state;
        assert(read == all[k]);
        if read.inherited && !read.figure {
            state.tally.inherited_text_laid_out = pptx_paint::count(
                state.tally.inherited_text_laid_out,
            );
        }
        let ghost counted = *state;
        pptx_text::layout_shape(read.shape, state);
        proof {
            let none: Seq<PlacedBody> = seq![];
            pptx_text::lemma_extends_none(mid, counted);
            pptx_text::lemma_extends_twice(
                mid,
                counted,
                *state,
                none,
                pptx_text::bodies_of(all[k].shape),
            );
            assert(none + pptx_text::bodies_of(all[k].shape) =~= pptx_text::bodies_of(
                all[k].shape,
            ));
            pptx_text::lemma_extends_twice(
                start,
                mid,
                *state,
                read_bodies(all, k),
                pptx_text::bodies_of(all[k].shape),
            );
        }
    }
}

/// Paints one slide and lays out its texts.
fn layout_slide(slide: SlideInput, page_size: PtSize, tally: SlideTally) -> (r: (
    SlideText,
    Option<usize>,
))
    requires
        slide_ok(Some(slide)),
    ensures
        ({
            let bodies = read_bodies(slide.reading@, slide.reading@.len() as int);
            let n = bodies.len() as int;
            &&& draws_slide(r.0.commands@, r.1, slide, page_size)
            &&& pptx_text::are_body_items(r.0.items@, bodies, n)
            &&& r.0.placements@ == pptx_text::placements_of(
                bodies,
                n,
                0,
                r.0.commands@.len() - pptx_text::body_commands(bodies, n).len(),
            )
            &&& r.0.tally == slide_tally(tally, Some(slide), page_size)
        }),
{
    let ghost s = slide;
    let mut tally = tally;
    let mut commands: Vec<DrawCommand> = Vec::new();
    let (background, color) = pptx_paint::paint_background(
        slide.background,
        page_size,
        &mut tally,
        &mut commands,
    );
    let ghost c0 = commands@;
    paint_rungs(slide.inherited, &mut tally, &mut commands);
    let ghost c1 = commands@;
    let none: Option<ResolvedFill> = None;
    pptx_paint::paint_shapes(slide.shapes, Rung::Slide, &none, &mut tally, &mut commands);
    let ghost c2 = commands@;
    let mut state = SlideText {
        items: Vec::new(),
        commands,
        placements: Vec::new(),
        tally,
        background: color,
    };
    let ghost before = state;
    read_shapes(slide.reading, &mut state);
    if slide.declines_master {
        state.tally.slides_declining_master = pptx_paint::count(
            state.tally.slides_declining_master,
        );
    }
    if slide.declines_layout {
        state.tally.slides_declining_layout = pptx_paint::count(
            state.tally.slides_declining_layout,
        );
    }
    proof {
        let bodies = read_bodies(s.reading@, s.reading@.len() as int);
        let n = bodies.len() as int;
        let texts = pptx_text::body_commands(bodies, n);
        let b = c0.len() as int;
        let list = ink_list(s);
        assert(state.commands@ == c2 + texts);
        assert(c2.skip(b) =~= c1.skip(b) + c2.skip(c1.len() as int));
        assert(state.commands@.subrange(b, b + list.len()) =~= c2.skip(b));
        assert(state.commands@.skip(b + list.len()) =~= texts);
        if background is Some {
            assert(state.commands@[0] == c0[0]);
        }
        assert(state.items@.skip(0) =~= state.items@);
        let empty: Seq<ShapePlacement> = seq![];
        let notes = pptx_text::placements_of(bodies, n, 0, c2.len() as int);
        assert(before.placements@ =~= empty);
        assert(before.placements@ + notes =~= notes);
    }
    (state, background)
}

// ── The deck ───────────────────────────────────────────────────────────

/// What is counted of the first `n` slides.
pub open spec fn deck_tally(slides: Seq<Option<SlideInput>>, page_size: PtSize, n: int) -> SlideTally
    decreases n,
{
    if n <= 0 {
        SlideTally::spec_new()
    } else {
        slide_tally(deck_tally(slides, page_size, n - 1), slides[n - 1], page_size)
    }
}

/// Lays out the slides of a deck. A slide that could not be read still makes
/// an empty page, so a page's place is its slide's place.
pub fn layout_deck(slides: Vec<Option<SlideInput>>, page_size: PtSize) -> (r: SlideGeometry)
    requires
        forall|i: int| 0 <= i < slides@.len() ==> slide_ok(#[trigger] slides@[i]),
    ensures
        r.pages@.len() == slides@.len(),
        r.layouts@.len() == slides@.len(),
        r.placements@.len() == slides@.len(),
        r.background_commands@.len() == slides@.len(),
        forall|i: int|
            0 <= i < slides@.len() ==> is_slide(
                #[trigger] r.pages@[i],
                r.layouts@[i],
                r.placements@[i]@,
                r.background_commands@[i],
                slides@[i],
                i,
                page_size,
            ),
        r.tally == deck_tally(slides@, page_size, slides@.len() as int),
{
    let ghost all = slides@;
    let total: usize = slides.len();
    let mut tally = SlideTally::new();
    let mut pages: Vec<Page> = Vec::new();
    let mut layouts: Vec<LayoutedPage> = Vec::new();
    let mut placements: Vec<Vec<ShapePlacement>> = Vec::new();
    let mut background_commands: Vec<Option<usize>> = Vec::new();
    for slide in it: slides
        invariant
            it.seq() == all,
            total == all.len(),
            forall|i: int| 0 <= i < all.len() ==> slide_ok(#[trigger] all[i]),
            pages@.len() == it.index(),
            layouts@.len() == it.index(),
            placements@.len() == it.index(),
            background_commands@.len() == it.index(),
            forall|i: int|
                0 <= i < it.index() ==> is_slide(
                    #[trigger] pages@[i],
                    layouts@[i],
                    placements@[i]@,
                    background_commands@[i],
                    all[i],
                    i,
                    page_size,
                ),
            tally == deck_tally(all, page_size, it.index() as int),
    {
        let ghost k = it.index() as int;
        assert(slide == all[k]);
        assert(slide_ok(all[k]));
        let index: usize = pages.len();
        let mut items: Vec<TextItem> = Vec::new();
        let mut notes: Vec<ShapePlacement> = Vec::new();
        let mut background_at: Option<usize> = None;
        let mut layout = LayoutedPage::new(page_size);
        if let Some(input) = slide {
            let (text, background) = layout_slide(input, page_size, tally);
            items = text.items;
            notes = text.placements;
            layout.commands = text.commands;
            background_at = background;
            tally = text.tally;
        }
        placements.push(notes);
        background_commands.push(background_at);
        layouts.push(layout);
        let content_bounds = docx_layout::union_bounds(&items);
        pages.push(
            Page {
                page_number: index + 1,
                page_width: page_size.width,
                page_height: page_size.height,
                content_bounds,
                text_items: items,
                annotations: None,
                extras: PageExtras::default(),
            },
        );
        proof {
            assert(is_slide(
                pages@[k],
                layouts@[k],
                placements@[k]@,
                background_commands@[k],
                all[k],
                k,
                page_size,
            ));
        }
    }
    SlideGeometry { pages, layouts, placements, background_commands, tally }
}

/// A painted background is the lowest command of its slide, and a slide has
/// one exactly when its background resolves to a fill.
pub proof fn background_is_lowest(
    commands: Seq<DrawCommand>,
    background: Option<usize>,
    slide: SlideInput,
    page_size: PtSize,
)
    requires
        draws_slide(commands, background, slide, page_size),
        page_size.width.emu > 0,
        page_size.height.emu > 0,
    ensures
        background is Some <==> (slide.background matches Some(b) && !(b.fill@ is NoFill)),
        background matches Some(at) ==> at == 0,
{
}

/// Every note of where a text landed names the mark that opens the text's
/// bracket, a bracket as large as the noted box, and a range of the page's
/// items.
pub proof fn placements_name_their_brackets(
    page: Page,
    layout: LayoutedPage,
    placements: Seq<ShapePlacement>,
    background: Option<usize>,
    slide: Option<SlideInput>,
    index: int,
    page_size: PtSize,
    k: int,
)
    requires
        is_slide(page, layout, placements, background, slide, index, page_size),
        0 <= k < placements.len(),
    ensures
        ({
            let p = placements[k];
            &&& p.first_item <= p.end_item <= page.text_items@.len()
            &&& p.bracket < layout.commands@.len()
            &&& layout.commands@[p.bracket as int] matches DrawCommand::Transform(
                TransformMark::Begin(t),
            )
            &&& t.extent.width == p.rect.width && t.extent.height == p.rect.height
        }),
{
    let s = slide->0;
    let bodies = read_bodies(s.reading@, s.reading@.len() as int);
    let n = bodies.len() as int;
    let texts = pptx_text::body_commands(bodies, n);
    let start = layout.commands@.len() - texts.len();
    let j = pptx_text::lemma_note_of_body(bodies, n, 0, start, k);
    pptx_text::lemma_body_items_len(page.text_items@, bodies, n);
    pptx_text::lemma_items_before_grow(bodies, j, j + 1);
    pptx_text::lemma_items_before_grow(bodies, j + 1, n);
    pptx_text::lemma_bracket_of(bodies, j, n);
    let at = pptx_text::body_commands(bodies, j).len() as int;
    assert(layout.commands@.skip(start) == texts);
    assert(layout.commands@[start + at] == texts[at]);
    assert(layout.commands@.len() == layout.commands.len());
    assert(page.text_items@.len() == page.text_items.len());
}

// ── Image boxes ────────────────────────────────────────────────────────

/// The boxes of the image fills among the first `n` commands.
pub open spec fn blip_rects(cmds: Seq<DrawCommand>, n: int) -> Seq<Rect>
    decreases n,
{
    if n <= 0 {
        seq![]
    } else {
        match cmds[n - 1] {
            DrawCommand::Path { origin, extent, fill, .. } => if fill is Blip {
                blip_rects(cmds, n - 1).push(
                    Rect {
                        x: origin.x,
                        y: origin.y,
                        width: extent.width,
                        height: extent.height,
                    },
                )
            } else {
                blip_rects(cmds, n - 1)
            },
            _ => blip_rects(cmds, n - 1),
        }
    }
}

/// The boxes of the image fills on each slide: of pictures, and of shapes and
/// backgrounds that are filled with one.
pub fn image_rects_per_page(layouted: &Vec<LayoutedPage>) -> (r: Vec<Vec<Rect>>)
    ensures
        r@.len() == layouted@.len(),
        forall|p: int|
            0 <= p < r@.len() ==> (#[trigger] r@[p])@ == blip_rects(
                layouted@[p].commands@,
                layouted@[p].commands@.len() as int,
            ),
{
    let mut out: Vec<Vec<Rect>> = Vec::new();
    let mut p: usize = 0;
    while p < layouted.len()
        invariant
            p <= layouted@.len(),
            out@.len() == p,
            forall|q: int|
                0 <= q < p ==> (#[trigger] out@[q])@ == blip_rects(
                    layouted@[q].commands@,
                    layouted@[q].commands@.len() as int,
                ),
        decreases layouted@.len() - p,
    {
        let commands = &layouted[p].commands;
        let mut rects: Vec<Rect> = Vec::new();
        let mut i: usize = 0;
        while i < commands.len()
            invariant
                i <= commands@.len(),
                rects@ == blip_rects(commands@, i as int),
            decreases commands@.len() - i,
        {
            if let DrawCommand::Path { origin, extent, fill, .. } = &commands[i] {
                if let ResolvedFill::Blip(_) = fill {
                    rects.push(
                        Rect {
                            x: origin.x,
                            y: origin.y,
                            width: extent.width,
                            height: extent.height,
                        },
                    );
                }
            }
            i += 1;
        }
        out.push(rects);
        p += 1;
    }
    out
}

}
