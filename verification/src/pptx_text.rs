//! The texts of a slide, in reading order: from laid-out bodies to items and
//! bracketed commands.
use crate::docx_layout;
use crate::draw_command::{DrawCommand, LayoutedPage, TransformMark};
use crate::geometry::{PtOffset, PtSize, Rect};
use crate::pptx_paint;
use crate::pptx_paint::SlideTally;
use crate::pptx_shapes;
use crate::pptx_shapes::{Frame, ShapeGeometry, SlideRect};
use crate::pptx_table;
use crate::pptx_table::{BodyLayout, CellLayout, Table};
use crate::types::TextItem;
use crate::units::{Angle, Pt};
use vstd::prelude::*;

verus! {

/// Which way a placed text came about.
#[derive(Clone, Copy, PartialEq, Eq, Structural, Debug)]
pub enum PlacementKind {
    /// The text of a shape, in the box that the file declares for it.
    Shape,
    /// The text of a table cell, in a box that follows from the table's grid.
    TableCell,
}

/// Where the items of one text landed on the slide.
#[derive(Clone, Copy, PartialEq, Eq, Structural, Debug)]
pub struct ShapePlacement {
    pub kind: PlacementKind,
    /// The text's box, before it is turned.
    pub rect: Rect,
    /// Counter-clockwise.
    pub rotation: Angle,
    /// Whether the text was shrunk to fit.
    pub shrunk: bool,
    /// The first of the slide's items that belongs to the text.
    pub first_item: usize,
    /// One past the last such item.
    pub end_item: usize,
    /// The place of the mark that opens the text's commands.
    pub bracket: usize,
}

/// A shape with a text, as far as its text goes.
#[derive(Debug)]
pub enum TextShape {
    Body { slide_rect: Option<SlideRect>, geometry: Option<ShapeGeometry>, body: BodyLayout },
    /// A group's members, in reading order.
    Group(Vec<TextShape>),
    Table { slide_rect: Option<SlideRect>, table: Table },
    Diagram,
    /// A shape without a text.
    Other,
}

/// The texts of one slide.
#[derive(Debug)]
pub struct SlideText {
    pub items: Vec<TextItem>,
    pub commands: Vec<DrawCommand>,
    pub placements: Vec<ShapePlacement>,
    pub tally: SlideTally,
    /// The colour of the slide's background.
    pub background: Option<u32>,
}

/// A body and where it goes.
pub struct PlacedBody {
    pub kind: PlacementKind,
    pub frame: Frame,
    pub offset: PtOffset,
    pub extent: PtSize,
    pub shrunk: bool,
    pub commands: Seq<DrawCommand>,
    pub runs: Seq<docx_layout::RunMetrics>,
}

impl PlacedBody {
    /// How many items the body makes.
    pub open spec fn item_count(self) -> int {
        docx_layout::item_commands(self.commands, self.commands.len() as int).len() as int
    }

    /// The body's commands between the two marks that place them.
    pub open spec fn bracketed(self) -> Seq<DrawCommand> {
        seq![
            DrawCommand::Transform(
                TransformMark::Begin(
                    crate::draw_command::ShapeTransform {
                        origin: self.frame.placed_at(self.offset, self.extent),
                        rotation: self.frame.rotation,
                        flip_h: false,
                        flip_v: false,
                        extent: self.extent,
                    },
                ),
            ),
        ] + self.commands + seq![DrawCommand::Transform(TransformMark::End)]
    }

    /// Whether `item` is what the `i`th command of the body makes, put on the
    /// slide.
    pub open spec fn is_item(self, item: TextItem, i: int) -> bool {
        exists|base: TextItem| #[trigger]
            docx_layout::is_made_item(base, self.commands, self.runs, i, false) && item
                == self.frame.placed_item(base, self.offset)
    }

    /// Whether `items` are what the body makes, put on the slide.
    pub open spec fn are_items(self, items: Seq<TextItem>) -> bool {
        &&& items.len() == self.item_count()
        &&& forall|k: int|
            0 <= k < items.len() ==> self.is_item(
                #[trigger] items[k],
                docx_layout::item_commands(self.commands, self.commands.len() as int)[k],
            )
    }

    /// Whether the body is noted as placed. A table cell that makes no item is
    /// not.
    pub open spec fn noted(self) -> bool {
        self.kind == PlacementKind::Shape || self.item_count() > 0
    }
}

/// The commands of the first `n` bodies.
pub open spec fn body_commands(bodies: Seq<PlacedBody>, n: int) -> Seq<DrawCommand>
    decreases n,
{
    if n <= 0 {
        seq![]
    } else {
        body_commands(bodies, n - 1) + bodies[n - 1].bracketed()
    }
}

/// Whether `items` are what the first `n` bodies make.
pub open spec fn are_body_items(items: Seq<TextItem>, bodies: Seq<PlacedBody>, n: int) -> bool
    decreases n,
{
    if n <= 0 {
        items.len() == 0
    } else {
        let k = items.len() - bodies[n - 1].item_count();
        &&& 0 <= k
        &&& are_body_items(items.take(k), bodies, n - 1)
        &&& bodies[n - 1].are_items(items.skip(k))
    }
}

/// How many items the first `n` bodies make.
pub open spec fn items_before(bodies: Seq<PlacedBody>, n: int) -> int
    decreases n,
{
    if n <= 0 {
        0
    } else {
        items_before(bodies, n - 1) + bodies[n - 1].item_count()
    }
}

/// The note of where the `k`th body landed, on a slide that had `commands`
/// commands and `items` items before.
pub open spec fn placement_of(
    bodies: Seq<PlacedBody>,
    k: int,
    items: int,
    commands: int,
) -> ShapePlacement {
    let b = bodies[k];
    ShapePlacement {
        kind: b.kind,
        rect: pptx_shapes::frame_rect(b.frame, b.offset, b.extent),
        rotation: b.frame.spec_item_rotation(),
        shrunk: b.shrunk,
        first_item: (items + items_before(bodies, k)) as usize,
        end_item: (items + items_before(bodies, k + 1)) as usize,
        bracket: (commands + body_commands(bodies, k).len()) as usize,
    }
}

/// The notes of where the first `n` bodies landed.
pub open spec fn placements_of(
    bodies: Seq<PlacedBody>,
    n: int,
    items: int,
    commands: int,
) -> Seq<ShapePlacement>
    decreases n,
{
    if n <= 0 {
        seq![]
    } else if bodies[n - 1].noted() {
        placements_of(bodies, n - 1, items, commands).push(
            placement_of(bodies, n - 1, items, commands),
        )
    } else {
        placements_of(bodies, n - 1, items, commands)
    }
}

// ── What is placed ─────────────────────────────────────────────────────

/// The body of a shape, where it is placed: it needs a box with an extent, and
/// something to draw.
pub open spec fn shape_body(
    slide_rect: Option<SlideRect>,
    geometry: Option<ShapeGeometry>,
    body: BodyLayout,
) -> Seq<PlacedBody> {
    match slide_rect {
        Some(r) => {
            let extent = r.rect.size;
            let inner = pptx_shapes::body_box(geometry, extent);
            if extent.width.emu > 0 && extent.height.emu > 0 && body.commands@.len() > 0 {
                seq![
                    PlacedBody {
                        kind: PlacementKind::Shape,
                        frame: Frame::spec_new(r, extent),
                        offset: inner.origin,
                        extent: inner.size,
                        shrunk: body.shrunk,
                        commands: body.commands@,
                        runs: body.runs@,
                    },
                ]
            } else {
                seq![]
            }
        },
        None => seq![],
    }
}

/// The bodies of the first `n` cells of a table, those with nothing to draw
/// left out.
pub open spec fn cell_bodies(
    cells: Seq<CellLayout>,
    row_edges: Seq<Pt>,
    frame: Frame,
    n: int,
) -> Seq<PlacedBody>
    decreases n,
{
    if n <= 0 {
        seq![]
    } else {
        let before = cell_bodies(cells, row_edges, frame, n - 1);
        let c = cells[n - 1];
        if c.body.commands@.len() > 0 {
            before.push(
                PlacedBody {
                    kind: PlacementKind::TableCell,
                    frame,
                    offset: pptx_table::cell_offset(c, row_edges),
                    extent: pptx_table::cell_extent(c, row_edges),
                    shrunk: false,
                    commands: c.body.commands@,
                    runs: c.body.runs@,
                },
            )
        } else {
            before
        }
    }
}

/// The bodies of a table's cells. All cells turn about the table's centre.
pub open spec fn table_bodies(slide_rect: Option<SlideRect>, table: Table) -> Seq<PlacedBody> {
    let col_edges = pptx_table::edges(pptx_table::grid_lengths(table.grid@));
    match slide_rect {
        Some(r) => if pptx_table::has_grid(col_edges) {
            let cells = pptx_table::table_cells(
                table.rows@,
                col_edges,
                table.rows@.len() as int,
            );
            cell_bodies(
                cells,
                pptx_table::row_edges_of(table),
                Frame::spec_new(r, r.rect.size),
                cells.len() as int,
            )
        } else {
            seq![]
        },
        None => seq![],
    }
}

/// The bodies of a shape and its members, in reading order.
pub open spec fn bodies_of(s: TextShape) -> Seq<PlacedBody>
    decreases s,
{
    match s {
        TextShape::Body { slide_rect, geometry, body } => shape_body(slide_rect, geometry, body),
        TextShape::Group(children) => bodies_in(children@, children@.len() as int),
        TextShape::Table { slide_rect, table } => table_bodies(slide_rect, table),
        TextShape::Diagram => seq![],
        TextShape::Other => seq![],
    }
}

/// The bodies of the first `n` shapes of a list.
pub open spec fn bodies_in(shapes: Seq<TextShape>, n: int) -> Seq<PlacedBody>
    decreases shapes, n,
{
    if n <= 0 || n > shapes.len() {
        seq![]
    } else {
        bodies_in(shapes, n - 1) + bodies_of(shapes[n - 1])
    }
}

// ── What is counted ────────────────────────────────────────────────────

/// How many of the first `n` bodies are noted as placed.
pub open spec fn noted_count(bodies: Seq<PlacedBody>, n: int) -> int
    decreases n,
{
    if n <= 0 {
        0
    } else {
        noted_count(bodies, n - 1) + (if bodies[n - 1].noted() {
            1int
        } else {
            0
        })
    }
}

/// What is counted of a shape's text.
pub open spec fn body_tally(
    t: SlideTally,
    slide_rect: Option<SlideRect>,
    body: BodyLayout,
    background: Option<u32>,
) -> SlideTally {
    match slide_rect {
        Some(r) => if r.rect.size.width.emu > 0 && r.rect.size.height.emu > 0 {
            pptx_paint::run_tallies(t, body.colors@, body.colors@.len() as int, background)
        } else {
            t
        },
        None => t,
    }
}

/// What is counted of a table.
pub open spec fn table_tally(
    t: SlideTally,
    slide_rect: Option<SlideRect>,
    table: Table,
    background: Option<u32>,
) -> SlideTally {
    let rows = table.rows@;
    let col_edges = pptx_table::edges(pptx_table::grid_lengths(table.grid@));
    if slide_rect is None || !pptx_table::has_grid(col_edges) {
        SlideTally {
            unplaced_table_cells: pptx_table::up_by(
                t.unplaced_table_cells,
                pptx_table::text_cells(rows, rows.len() as int),
            ),
            ..t
        }
    } else {
        let u = pptx_table::rows_tally(t, rows, col_edges, rows.len() as int, background);
        let bodies = table_bodies(slide_rect, table);
        SlideTally {
            placed_table_cells: pptx_table::up_by(
                u.placed_table_cells,
                noted_count(bodies, bodies.len() as int),
            ),
            ..u
        }
    }
}

/// What is counted of a shape and its members.
pub open spec fn text_tally(t: SlideTally, s: TextShape, background: Option<u32>) -> SlideTally
    decreases s,
{
    match s {
        TextShape::Body { slide_rect, geometry, body } => body_tally(
            t,
            slide_rect,
            body,
            background,
        ),
        TextShape::Group(children) => text_tallies(
            t,
            children@,
            children@.len() as int,
            background,
        ),
        TextShape::Table { slide_rect, table } => table_tally(t, slide_rect, table, background),
        TextShape::Diagram => SlideTally {
            unplaced_diagram_bodies: pptx_paint::up(t.unplaced_diagram_bodies),
            ..t
        },
        TextShape::Other => t,
    }
}

/// What is counted of the first `n` shapes of a list.
pub open spec fn text_tallies(
    t: SlideTally,
    shapes: Seq<TextShape>,
    n: int,
    background: Option<u32>,
) -> SlideTally
    decreases shapes, n,
{
    if n <= 0 || n > shapes.len() {
        t
    } else {
        text_tally(text_tallies(t, shapes, n - 1, background), shapes[n - 1], background)
    }
}

// ── Well-formedness ────────────────────────────────────────────────────

/// Whether a place's direction is one, and its body has its measures.
pub open spec fn place_ok(slide_rect: Option<SlideRect>) -> bool {
    slide_rect matches Some(r) ==> r.direction.ok()
}

/// Whether the texts of a row have their measures.
pub open spec fn row_ok(r: pptx_table::TableRow) -> bool {
    forall|j: int|
        0 <= j < r.cells@.len() ==> ((#[trigger] r.cells@[j]).text matches Some(t) ==> t.body.ok())
}

/// Whether a body was laid out in the box that a shape leaves for it.
pub open spec fn body_fits(
    slide_rect: Option<SlideRect>,
    geometry: Option<ShapeGeometry>,
    body: BodyLayout,
) -> bool {
    slide_rect matches Some(r) ==> body.extent == pptx_shapes::body_box(
        geometry,
        r.rect.size,
    ).size
}

/// Whether a shape's bodies have their measures and were laid out in their
/// boxes, and its places have directions.
pub open spec fn shape_ok(s: TextShape) -> bool
    decreases s,
{
    match s {
        TextShape::Body { slide_rect, geometry, body } => place_ok(slide_rect) && body.ok()
            && body_fits(slide_rect, geometry, body),
        TextShape::Group(children) => shapes_ok(children@, children@.len() as int),
        TextShape::Table { slide_rect, table } => place_ok(slide_rect) && pptx_table::bodies_fit(
            table,
        ) && forall|i: int| 0 <= i < table.rows@.len() ==> row_ok(#[trigger] table.rows@[i]),
        TextShape::Diagram => true,
        TextShape::Other => true,
    }
}

/// Whether the first `n` shapes of a list are well-formed.
pub open spec fn shapes_ok(shapes: Seq<TextShape>, n: int) -> bool
    decreases shapes, n,
{
    if n <= 0 || n > shapes.len() {
        true
    } else {
        shapes_ok(shapes, n - 1) && shape_ok(shapes[n - 1])
    }
}

// ── The walk ───────────────────────────────────────────────────────────

/// Whether `after` is `before` with some bodies put on the slide.
pub open spec fn extends(before: SlideText, after: SlideText, bodies: Seq<PlacedBody>) -> bool {
    let n = bodies.len() as int;
    &&& after.background == before.background
    &&& after.commands@ == before.commands@ + body_commands(bodies, n)
    &&& before.items@.is_prefix_of(after.items@)
    &&& are_body_items(after.items@.skip(before.items@.len() as int), bodies, n)
    &&& after.placements@ == before.placements@ + placements_of(
        bodies,
        n,
        before.items@.len() as int,
        before.commands@.len() as int,
    )
}

pub(crate) proof fn lemma_body_items_len(items: Seq<TextItem>, bodies: Seq<PlacedBody>, n: int)
    requires
        are_body_items(items, bodies, n),
    ensures
        items.len() == items_before(bodies, n),
    decreases n,
{
    if n > 0 {
        let k = items.len() - bodies[n - 1].item_count();
        lemma_body_items_len(items.take(k), bodies, n - 1);
    }
}

proof fn lemma_bodies_append(a: Seq<PlacedBody>, b: Seq<PlacedBody>, n: int)
    requires
        0 <= n <= b.len(),
    ensures
        body_commands(a + b, a.len() + n) == body_commands(a, a.len() as int) + body_commands(b, n),
        items_before(a + b, a.len() + n) == items_before(a, a.len() as int) + items_before(b, n),
        noted_count(a + b, a.len() + n) == noted_count(a, a.len() as int) + noted_count(b, n),
    decreases n,
{
    if n > 0 {
        lemma_bodies_append(a, b, n - 1);
        assert((a + b)[a.len() + n - 1] == b[n - 1]);
        assert(body_commands(a + b, a.len() + n) =~= body_commands(a, a.len() as int)
            + body_commands(b, n));
    } else {
        lemma_bodies_prefix(a, a + b, a.len() as int);
        assert(body_commands(a + b, a.len() as int) =~= body_commands(a, a.len() as int)
            + body_commands(b, 0));
    }
}

proof fn lemma_bodies_prefix(a: Seq<PlacedBody>, b: Seq<PlacedBody>, n: int)
    requires
        0 <= n <= a.len(),
        n <= b.len(),
        forall|k: int| 0 <= k < n ==> a[k] == b[k],
    ensures
        body_commands(a, n) == body_commands(b, n),
        items_before(a, n) == items_before(b, n),
        noted_count(a, n) == noted_count(b, n),
    decreases n,
{
    if n > 0 {
        lemma_bodies_prefix(a, b, n - 1);
    }
}

proof fn lemma_items_prefix(items: Seq<TextItem>, a: Seq<PlacedBody>, b: Seq<PlacedBody>, n: int)
    requires
        0 <= n <= a.len(),
        n <= b.len(),
        forall|k: int| 0 <= k < n ==> a[k] == b[k],
        are_body_items(items, a, n),
    ensures
        are_body_items(items, b, n),
    decreases n,
{
    if n > 0 {
        let k = items.len() - a[n - 1].item_count();
        lemma_items_prefix(items.take(k), a, b, n - 1);
    }
}

proof fn lemma_items_append(
    x: Seq<TextItem>,
    y: Seq<TextItem>,
    a: Seq<PlacedBody>,
    b: Seq<PlacedBody>,
    n: int,
)
    requires
        0 <= n <= b.len(),
        are_body_items(x, a, a.len() as int),
        are_body_items(y, b, n),
    ensures
        are_body_items(x + y, a + b, a.len() + n),
    decreases n,
{
    if n > 0 {
        let k = y.len() - b[n - 1].item_count();
        lemma_items_append(x, y.take(k), a, b, n - 1);
        assert((a + b)[a.len() + n - 1] == b[n - 1]);
        assert((x + y).take(x.len() + k) =~= x + y.take(k));
        assert((x + y).skip(x.len() + k) =~= y.skip(k));
    } else {
        lemma_items_prefix(x, a, a + b, a.len() as int);
        assert(x + y =~= x);
    }
}

proof fn lemma_placements_prefix(
    a: Seq<PlacedBody>,
    b: Seq<PlacedBody>,
    n: int,
    items: int,
    commands: int,
)
    requires
        0 <= n <= a.len(),
        n <= b.len(),
        forall|k: int| 0 <= k < n ==> a[k] == b[k],
    ensures
        placements_of(a, n, items, commands) == placements_of(b, n, items, commands),
    decreases n,
{
    if n > 0 {
        lemma_placements_prefix(a, b, n - 1, items, commands);
        lemma_bodies_prefix(a, b, n - 1);
        lemma_bodies_prefix(a, b, n);
    }
}

proof fn lemma_placements_append(
    a: Seq<PlacedBody>,
    b: Seq<PlacedBody>,
    n: int,
    items: int,
    commands: int,
)
    requires
        0 <= n <= b.len(),
    ensures
        placements_of(a + b, a.len() + n, items, commands) == placements_of(
            a,
            a.len() as int,
            items,
            commands,
        ) + placements_of(
            b,
            n,
            items + items_before(a, a.len() as int),
            commands + body_commands(a, a.len() as int).len(),
        ),
    decreases n,
{
    let m = a.len() as int;
    let (i2, c2) = (items + items_before(a, m), commands + body_commands(a, m).len());
    if n > 0 {
        lemma_placements_append(a, b, n - 1, items, commands);
        lemma_bodies_append(a, b, n - 1);
        lemma_bodies_append(a, b, n);
        assert((a + b)[m + n - 1] == b[n - 1]);
        assert(placement_of(a + b, m + n - 1, items, commands) == placement_of(b, n - 1, i2, c2));
        assert(placements_of(a + b, m + n, items, commands) =~= placements_of(
            a,
            m,
            items,
            commands,
        ) + placements_of(b, n, i2, c2));
    } else {
        lemma_placements_prefix(a, a + b, m, items, commands);
        assert(placements_of(a + b, m, items, commands) =~= placements_of(a, m, items, commands)
            + placements_of(b, 0, i2, c2));
    }
}

pub(crate) proof fn lemma_extends_twice(
    s0: SlideText,
    s1: SlideText,
    s2: SlideText,
    a: Seq<PlacedBody>,
    b: Seq<PlacedBody>,
)
    requires
        extends(s0, s1, a),
        extends(s1, s2, b),
    ensures
        extends(s0, s2, a + b),
{
    let (m, n) = (a.len() as int, b.len() as int);
    let x = s1.items@.skip(s0.items@.len() as int);
    let y = s2.items@.skip(s1.items@.len() as int);
    lemma_bodies_append(a, b, n);
    lemma_body_items_len(x, a, m);
    lemma_items_append(x, y, a, b, n);
    lemma_placements_append(a, b, n, s0.items@.len() as int, s0.commands@.len() as int);
    assert(s2.items@.skip(s0.items@.len() as int) =~= x + y);
    assert(s2.commands@ =~= s0.commands@ + body_commands(a + b, m + n));
    assert(s2.placements@ =~= s0.placements@ + placements_of(
        a + b,
        m + n,
        s0.items@.len() as int,
        s0.commands@.len() as int,
    ));
}

pub(crate) proof fn lemma_extends_none(s: SlideText, t: SlideText)
    requires
        t.background == s.background,
        t.commands@ == s.commands@,
        t.items@ == s.items@,
        t.placements@ == s.placements@,
    ensures
        extends(s, t, seq![]),
{
    let none: Seq<PlacedBody> = seq![];
    assert(t.items@.skip(s.items@.len() as int) =~= seq![]);
    assert(s.commands@ + body_commands(none, 0) =~= s.commands@);
    assert(s.placements@ + placements_of(
        none,
        0,
        s.items@.len() as int,
        s.commands@.len() as int,
    ) =~= s.placements@);
}

/// Appends the commands of a body between the marks that place them, and gives
/// the place of the first of the two.
fn push_bracketed(
    out: &mut Vec<DrawCommand>,
    placement: crate::draw_command::ShapeTransform,
    commands: Vec<DrawCommand>,
) -> (at: usize)
    ensures
        at == old(out)@.len(),
        final(out)@ == old(out)@ + (seq![
            DrawCommand::Transform(TransformMark::Begin(placement)),
        ] + commands@ + seq![DrawCommand::Transform(TransformMark::End)]),
{
    let ghost start = out@;
    let ghost body = commands@;
    let at: usize = out.len();
    out.push(DrawCommand::Transform(TransformMark::Begin(placement)));
    let mut commands = commands;
    out.append(&mut commands);
    out.push(DrawCommand::Transform(TransformMark::End));
    assert(out@ =~= start + (seq![DrawCommand::Transform(TransformMark::Begin(placement))] + body
        + seq![DrawCommand::Transform(TransformMark::End)]));
    at
}

/// Turns the commands of a body into items in the body's own coordinates.
fn commands_to_items(
    commands: Vec<DrawCommand>,
    runs: Vec<docx_layout::RunMetrics>,
    extent: PtSize,
) -> (r: (Vec<TextItem>, Vec<DrawCommand>))
    requires
        runs@.len() == commands@.len(),
    ensures
        r.1@ == commands@,
        r.0@.len() == docx_layout::item_commands(commands@, commands@.len() as int).len(),
        forall|k: int|
            0 <= k < r.0@.len() ==> docx_layout::is_made_item(
                #[trigger] r.0@[k],
                commands@,
                runs@,
                docx_layout::item_commands(commands@, commands@.len() as int)[k],
                false,
            ),
{
    let ghost cmds = commands@;
    let ghost metrics = runs@;
    let mut page = LayoutedPage::new(extent);
    page.commands = commands;
    let mut pages: Vec<LayoutedPage> = Vec::new();
    pages.push(page);
    let mut all_runs: Vec<Vec<docx_layout::RunMetrics>> = Vec::new();
    all_runs.push(runs);
    let mut native = docx_layout::layout_to_pages(&pages, &all_runs, false, false);
    assert(docx_layout::is_native_page(
        native.pages@[0],
        pages@[0],
        all_runs@[0]@,
        0,
        false,
        false,
    ));
    let converted = native.pages.pop();
    let original = pages.pop();
    match (converted, original) {
        (Some(c), Some(o)) => (c.text_items, o.commands),
        _ => (Vec::new(), Vec::new()),
    }
}

/// Puts one body on the slide, and notes it unless it is a cell without items.
fn place_body(
    state: &mut SlideText,
    kind: PlacementKind,
    frame: Frame,
    offset: PtOffset,
    extent: PtSize,
    body: BodyLayout,
    shrunk: bool,
) -> (noted: bool)
    requires
        frame.direction.ok(),
        body.ok(),
    ensures
        ({
            let b = PlacedBody {
                kind,
                frame,
                offset,
                extent,
                shrunk,
                commands: body.commands@,
                runs: body.runs@,
            };
            &&& extends(*old(state), *final(state), seq![b])
            &&& noted == b.noted()
            &&& final(state).tally == old(state).tally
        }),
{
    let ghost b = PlacedBody {
        kind,
        frame,
        offset,
        extent,
        shrunk,
        commands: body.commands@,
        runs: body.runs@,
    };
    let ghost one = seq![b];
    let ghost start = *state;
    let (items, commands) = commands_to_items(body.commands, body.runs, extent);
    let ghost bases = items@;
    let placement = frame.place(offset, extent);
    let bracket: usize = push_bracketed(&mut state.commands, placement, commands);
    let first_item: usize = state.items.len();
    frame.push_items(items, offset, &mut state.items);
    let end_item: usize = state.items.len();
    proof {
        let added = state.items@.skip(start.items@.len() as int);
        assert(added =~= bases.map_values(|item: TextItem| frame.placed_item(item, offset)));
        assert forall|k: int| 0 <= k < added.len() implies b.is_item(
            #[trigger] added[k],
            docx_layout::item_commands(b.commands, b.commands.len() as int)[k],
        ) by {
            assert(docx_layout::is_made_item(
                bases[k],
                b.commands,
                b.runs,
                docx_layout::item_commands(b.commands, b.commands.len() as int)[k],
                false,
            ));
        }
        assert(added.skip(0) =~= added);
        assert(are_body_items(added.take(0), one, 0));
        assert(are_body_items(added, one, 1));
        assert(body_commands(one, 0) =~= seq![]);
        assert(body_commands(one, 1) =~= b.bracketed());
        assert(items_before(one, 0) == 0);
        assert(items_before(one, 1) == b.item_count());
    }
    let is_shape = match kind {
        PlacementKind::Shape => true,
        PlacementKind::TableCell => false,
    };
    if !is_shape && end_item == first_item {
        assert(placements_of(
            one,
            1,
            start.items@.len() as int,
            start.commands@.len() as int,
        ) =~= seq![]) by {
            assert(placements_of(
                one,
                0,
                start.items@.len() as int,
                start.commands@.len() as int,
            ) =~= seq![]);
        }
        assert(state.placements@ =~= start.placements@ + placements_of(
            one,
            1,
            start.items@.len() as int,
            start.commands@.len() as int,
        ));
        return false;
    }
    let note = ShapePlacement {
        kind,
        rect: Rect {
            x: frame.origin.x.plus(offset.x),
            y: frame.origin.y.plus(offset.y),
            width: extent.width,
            height: extent.height,
        },
        rotation: frame.item_rotation(),
        shrunk,
        first_item,
        end_item,
        bracket,
    };
    state.placements.push(note);
    proof {
        let (i, c) = (start.items@.len() as int, start.commands@.len() as int);
        assert(placements_of(one, 0, i, c) =~= seq![]);
        assert(note == placement_of(one, 0, i, c));
        assert(placements_of(one, 1, i, c) =~= seq![note]);
        assert(state.placements@ =~= start.placements@ + placements_of(one, 1, i, c));
    }
    true
}

/// Lays out the text of one shape.
fn layout_text_shape(
    slide_rect: Option<SlideRect>,
    geometry: Option<ShapeGeometry>,
    body: BodyLayout,
    state: &mut SlideText,
)
    requires
        place_ok(slide_rect),
        body.ok(),
    ensures
        extends(*old(state), *final(state), shape_body(slide_rect, geometry, body)),
        final(state).tally == body_tally(
            old(state).tally,
            slide_rect,
            body,
            old(state).background,
        ),
{
    let ghost start = *state;
    let rect = match slide_rect {
        Some(r) => r,
        None => {
            proof {
                lemma_extends_none(start, *state);
            }
            return;
        },
    };
    let extent = rect.rect.size;
    if extent.width.emu <= 0 || extent.height.emu <= 0 {
        proof {
            lemma_extends_none(start, *state);
        }
        return;
    }
    let inner = pptx_shapes::body_rect(&geometry, extent);
    let background = state.background;
    pptx_paint::count_runs(&body.colors, background, &mut state.tally);
    if body.commands.len() == 0 {
        proof {
            lemma_extends_none(start, *state);
        }
        return;
    }
    let frame = Frame::new(&rect, extent);
    let shrunk = body.shrunk;
    let ghost mid = *state;
    let _ = place_body(
        state,
        PlacementKind::Shape,
        frame,
        inner.origin,
        inner.size,
        body,
        shrunk,
    );
}

proof fn lemma_cells_ok(rows: Seq<pptx_table::TableRow>, col_edges: Seq<Pt>, n: int)
    requires
        0 <= n <= rows.len(),
        forall|i: int| 0 <= i < rows.len() ==> row_ok(#[trigger] rows[i]),
    ensures
        forall|k: int|
            0 <= k < pptx_table::table_cells(rows, col_edges, n).len() ==> (
            #[trigger] pptx_table::table_cells(rows, col_edges, n)[k]).body.ok(),
    decreases n,
{
    if n > 0 {
        lemma_cells_ok(rows, col_edges, n - 1);
        let cells = rows[n - 1].cells@;
        assert(row_ok(rows[n - 1]));
        lemma_row_cells_ok(rows[n - 1], (n - 1) as usize, col_edges, cells.len() as int);
        let a = pptx_table::table_cells(rows, col_edges, n - 1);
        let b = pptx_table::row_cells(cells, (n - 1) as usize, col_edges, cells.len() as int);
        assert forall|k: int| 0 <= k < (a + b).len() implies (#[trigger] (a + b)[k]).body.ok() by {
            if k < a.len() {
                assert((a + b)[k] == a[k]);
            } else {
                assert((a + b)[k] == b[k - a.len()]);
            }
        }
    }
}

proof fn lemma_row_cells_ok(r: pptx_table::TableRow, row: usize, col_edges: Seq<Pt>, n: int)
    requires
        0 <= n <= r.cells@.len(),
        row_ok(r),
    ensures
        forall|k: int|
            0 <= k < pptx_table::row_cells(r.cells@, row, col_edges, n).len() ==> (
            #[trigger] pptx_table::row_cells(r.cells@, row, col_edges, n)[k]).body.ok(),
    decreases n,
{
    if n > 0 {
        lemma_row_cells_ok(r, row, col_edges, n - 1);
        let a = pptx_table::row_cells(r.cells@, row, col_edges, n - 1);
        let b = pptx_table::row_cells(r.cells@, row, col_edges, n);
        assert(r.cells@[n - 1].text matches Some(t) ==> t.body.ok());
        assert forall|k: int| 0 <= k < b.len() implies (#[trigger] b[k]).body.ok() by {
            if k < a.len() {
                assert(b[k] == a[k]);
            }
        }
    }
}

/// Places the cells of a table, once the edges of its rows are known.
fn place_cells(
    cells: Vec<CellLayout>,
    row_edges: &Vec<Pt>,
    frame: Frame,
    state: &mut SlideText,
)
    requires
        frame.direction.ok(),
        forall|k: int|
            0 <= k < cells@.len() ==> (#[trigger] cells@[k]).row < row_edges@.len()
                && cells@[k].body.ok(),
    ensures
        ({
            let bodies = cell_bodies(cells@, row_edges@, frame, cells@.len() as int);
            &&& extends(*old(state), *final(state), bodies)
            &&& final(state).tally == (SlideTally {
                placed_table_cells: pptx_table::up_by(
                    old(state).tally.placed_table_cells,
                    noted_count(bodies, bodies.len() as int),
                ),
                ..old(state).tally
            })
        }),
{
    let ghost all = cells@;
    let ghost start = *state;
    proof {
        lemma_extends_none(start, *state);
        assert(cell_bodies(all, row_edges@, frame, 0) =~= seq![]);
    }
    for cell in it: cells
        invariant
            it.seq() == all,
            frame.direction.ok(),
            forall|k: int|
                0 <= k < all.len() ==> (#[trigger] all[k]).row < row_edges@.len()
                    && all[k].body.ok(),
            extends(
                start,
                *state,
                cell_bodies(all, row_edges@, frame, it.index() as int),
            ),
            ({
                let bodies = cell_bodies(all, row_edges@, frame, it.index() as int);
                state.tally == (SlideTally {
                    placed_table_cells: pptx_table::up_by(
                        start.tally.placed_table_cells,
                        noted_count(bodies, bodies.len() as int),
                    ),
                    ..start.tally
                })
            }),
    {
        let ghost n = it.index() as int;
        let ghost before = cell_bodies(all, row_edges@, frame, n);
        let ghost after = cell_bodies(all, row_edges@, frame, n + 1);
        let ghost mid = *state;
        assert(cell == all[n]);
        if cell.body.commands.len() > 0 {
            let (offset, extent) = pptx_table::cell_box(&cell, row_edges);
            let ghost b = PlacedBody {
                kind: PlacementKind::TableCell,
                frame,
                offset,
                extent,
                shrunk: false,
                commands: cell.body.commands@,
                runs: cell.body.runs@,
            };
            let noted = place_body(
                state,
                PlacementKind::TableCell,
                frame,
                offset,
                extent,
                cell.body,
                false,
            );
            proof {
                assert(after =~= before + seq![b]);
                lemma_extends_twice(start, mid, *state, before, seq![b]);
                lemma_noted_prefix(before, after, before.len() as int);
                lemma_noted_nonnegative(before, before.len() as int);
            }
            if noted {
                state.tally.placed_table_cells = pptx_paint::count(
                    state.tally.placed_table_cells,
                );
            }
        }
    }
}

proof fn lemma_noted_prefix(a: Seq<PlacedBody>, b: Seq<PlacedBody>, n: int)
    requires
        0 <= n <= a.len(),
        n <= b.len(),
        forall|k: int| 0 <= k < n ==> a[k] == b[k],
    ensures
        noted_count(a, n) == noted_count(b, n),
    decreases n,
{
    if n > 0 {
        lemma_noted_prefix(a, b, n - 1);
    }
}

proof fn lemma_noted_nonnegative(a: Seq<PlacedBody>, n: int)
    ensures
        0 <= noted_count(a, n),
    decreases n,
{
    if n > 0 {
        lemma_noted_nonnegative(a, n - 1);
    }
}

/// Lays out the cells of a table. The grid alone says how wide the columns
/// are; the table's frame says only where the table starts and how it is
/// turned. A row is as tall as its tallest cell, so all cells are measured
/// before any is placed.
fn layout_table(slide_rect: Option<SlideRect>, table: Table, state: &mut SlideText)
    requires
        place_ok(slide_rect),
        forall|i: int| 0 <= i < table.rows@.len() ==> row_ok(#[trigger] table.rows@[i]),
    ensures
        extends(*old(state), *final(state), table_bodies(slide_rect, table)),
        final(state).tally == table_tally(
            old(state).tally,
            slide_rect,
            table,
            old(state).background,
        ),
{
    let ghost start = *state;
    let col_edges = pptx_table::column_edges(&table.grid);
    let rect = match slide_rect {
        Some(r) => r,
        None => {
            pptx_table::count_unplaced(&table.rows, &mut state.tally);
            proof {
                lemma_extends_none(start, *state);
            }
            return;
        },
    };
    if col_edges.len() < 2 || col_edges[col_edges.len() - 1].emu <= 0 {
        pptx_table::count_unplaced(&table.rows, &mut state.tally);
        proof {
            lemma_extends_none(start, *state);
        }
        return;
    }
    let ghost rows = table.rows@;
    let row_count: usize = table.rows.len();
    let declared = pptx_table::heights_of(&table.rows);
    let background = state.background;
    let cells = pptx_table::collect_cells(table.rows, &col_edges, background, &mut state.tally);
    let heights = pptx_table::grown_row_heights(&declared, &cells);
    let row_edges = pptx_table::prefix_edges(&heights);
    proof {
        pptx_table::cells_stand_in_rows(rows, col_edges@, rows.len() as int);
        pptx_table::rows_never_shrink(declared@, cells@, cells@.len() as int);
        lemma_cells_ok(rows, col_edges@, rows.len() as int);
        lemma_extends_none(start, *state);
    }
    let ghost mid = *state;
    let frame = Frame::new(&rect, rect.rect.size);
    place_cells(cells, &row_edges, frame, state);
    proof {
        let none: Seq<PlacedBody> = seq![];
        let bodies = table_bodies(slide_rect, table);
        lemma_extends_twice(start, mid, *state, none, bodies);
        assert(none + bodies =~= bodies);
    }
}

/// Lays out the text of a shape, or of a group's members.
pub(crate) fn layout_shape(shape: TextShape, state: &mut SlideText)
    requires
        shape_ok(shape),
    ensures
        extends(*old(state), *final(state), bodies_of(shape)),
        final(state).tally == text_tally(old(state).tally, shape, old(state).background),
    decreases shape,
{
    let ghost start = *state;
    match shape {
        TextShape::Body { slide_rect, geometry, body } => {
            layout_text_shape(slide_rect, geometry, body, state);
        },
        TextShape::Group(children) => {
            layout_shapes(children, state);
        },
        TextShape::Table { slide_rect, table } => {
            layout_table(slide_rect, table, state);
        },
        TextShape::Diagram => {
            state.tally.unplaced_diagram_bodies = pptx_paint::count(
                state.tally.unplaced_diagram_bodies,
            );
            proof {
                lemma_extends_none(start, *state);
            }
        },
        TextShape::Other => {
            proof {
                lemma_extends_none(start, *state);
            }
        },
    }
}

proof fn lemma_shapes_ok(shapes: Seq<TextShape>, n: int, k: int)
    requires
        shapes_ok(shapes, n),
        0 <= k < n <= shapes.len(),
    ensures
        shape_ok(shapes[k]),
    decreases n,
{
    if k < n - 1 {
        lemma_shapes_ok(shapes, n - 1, k);
    }
}

/// Lays out the texts of some shapes in the order in which they are given.
pub fn layout_shapes(shapes: Vec<TextShape>, state: &mut SlideText)
    requires
        shapes_ok(shapes@, shapes@.len() as int),
    ensures
        extends(*old(state), *final(state), bodies_in(shapes@, shapes@.len() as int)),
        final(state).tally == text_tallies(
            old(state).tally,
            shapes@,
            shapes@.len() as int,
            old(state).background,
        ),
    decreases shapes,
{
    let ghost start = *state;
    let ghost all = shapes@;
    proof {
        lemma_extends_none(start, *state);
        assert(bodies_in(all, 0) =~= seq![]);
    }
    for shape in it: shapes
        invariant
            it.seq() == all,
            all == shapes@,
            shapes_ok(all, all.len() as int),
            extends(start, *state, bodies_in(all, it.index() as int)),
            state.tally == text_tallies(
                start.tally,
                all,
                it.index() as int,
                start.background,
            ),
    {
        let ghost k = it.index() as int;
        let ghost mid = *state;
        assert(shape == all[k]);
        assert(decreases_to!(shapes => shapes@));
        assert(decreases_to!(shapes@ => shapes@[k]));
        proof {
            lemma_shapes_ok(all, all.len() as int, k);
        }
        layout_shape(shape, state);
        proof {
            lemma_extends_twice(start, mid, *state, bodies_in(all, k), bodies_of(all[k]));
        }
    }
}

/// Every note is that of one of the bodies.
pub(crate) proof fn lemma_note_of_body(
    bodies: Seq<PlacedBody>,
    n: int,
    items: int,
    commands: int,
    k: int,
) -> (j: int)
    requires
        0 <= n <= bodies.len(),
        0 <= k < placements_of(bodies, n, items, commands).len(),
    ensures
        0 <= j < n,
        placements_of(bodies, n, items, commands)[k] == placement_of(bodies, j, items, commands),
    decreases n,
{
    if bodies[n - 1].noted() && k == placements_of(bodies, n - 1, items, commands).len() {
        n - 1
    } else {
        lemma_note_of_body(bodies, n - 1, items, commands, k)
    }
}

pub(crate) proof fn lemma_items_before_grow(bodies: Seq<PlacedBody>, a: int, b: int)
    requires
        0 <= a <= b,
    ensures
        0 <= items_before(bodies, a) <= items_before(bodies, b),
    decreases b,
{
    if a < b {
        lemma_items_before_grow(bodies, a, b - 1);
    } else if a > 0 {
        lemma_items_before_grow(bodies, a - 1, b - 1);
    }
}

pub(crate) proof fn lemma_bracket_of(bodies: Seq<PlacedBody>, k: int, n: int)
    requires
        0 <= k < n <= bodies.len(),
    ensures
        body_commands(bodies, k).len() < body_commands(bodies, n).len(),
        body_commands(bodies, n)[body_commands(bodies, k).len() as int]
            == bodies[k].bracketed()[0],
    decreases n,
{
    let before = body_commands(bodies, n - 1);
    let b = bodies[n - 1].bracketed();
    if k < n - 1 {
        lemma_bracket_of(bodies, k, n - 1);
    }
    assert(body_commands(bodies, n) == before + b);
}

/// Every mark that opens a body is followed by the body's own commands, and by
/// the mark that closes it: no two brackets of a slide overlap.
pub proof fn brackets_do_not_nest(bodies: Seq<PlacedBody>, k: int, n: int)
    requires
        0 <= k < n <= bodies.len(),
    ensures
        ({
            let at = body_commands(bodies, k).len() as int;
            let m = bodies[k].commands.len() as int;
            let all = body_commands(bodies, n);
            &&& at + m + 1 < all.len()
            &&& all[at] matches DrawCommand::Transform(TransformMark::Begin(_))
            &&& all.subrange(at + 1, at + 1 + m) == bodies[k].commands
            &&& all[at + 1 + m] matches DrawCommand::Transform(TransformMark::End)
        }),
    decreases n,
{
    let all = body_commands(bodies, n);
    let before = body_commands(bodies, n - 1);
    let b = bodies[n - 1].bracketed();
    if k == n - 1 {
        let at = before.len() as int;
        let m = bodies[k].commands.len() as int;
        assert(all == before + b);
        assert(all[at] == b[0]);
        assert(all[at + 1 + m] == b[1 + m]);
        assert(all.subrange(at + 1, at + 1 + m) =~= bodies[k].commands);
    } else {
        brackets_do_not_nest(bodies, k, n - 1);
        let at = body_commands(bodies, k).len() as int;
        let m = bodies[k].commands.len() as int;
        assert(all.subrange(at + 1, at + 1 + m) =~= before.subrange(at + 1, at + 1 + m));
        assert(all[at] == before[at]);
        assert(all[at + 1 + m] == before[at + 1 + m]);
    }
}

}
