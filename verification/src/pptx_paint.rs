//! The ink of a slide: its background and the fills and outlines of its
//! shapes, in document order.
use crate::draw_command::{
    CropRect, DrawCommand, GradientStopRgba, ImageFormat, MediaEntry, ResolvedBlip, ResolvedEffect,
    ResolvedFill, ResolvedGradient, ResolvedGradientKind, ResolvedPattern, ResolvedStroke, Rgba,
    RgbColor,
};
use crate::geometry::{PtOffset, PtSize};
use crate::pptx_shapes;
use crate::pptx_shapes::{ShapeGeometry, SlideRect};
use crate::raster;
use crate::units::{Angle, Pt};
use vstd::prelude::*;

verus! {

/// What was placed and painted on the slides of a deck, and what could not be.
/// The counts stop at the largest number there is.
#[derive(Clone, Copy, PartialEq, Eq, Structural, Debug)]
pub struct SlideTally {
    /// Table cells whose text was placed.
    pub placed_table_cells: usize,
    /// Table cells with a text that could not be placed.
    pub unplaced_table_cells: usize,
    /// Diagrams, whose texts have no boxes.
    pub unplaced_diagram_bodies: usize,
    /// Shapes of the slide itself that were painted.
    pub painted_shapes: usize,
    /// Shapes with ink whose outline could not be built.
    pub unpainted_shapes: usize,
    /// Painted shapes whose outline is black for want of any colour.
    pub outlines_defaulted_black: usize,
    /// Shapes with references into the theme's style lists.
    pub shapes_with_style: usize,
    /// Painted shapes whose fill came from such a reference.
    pub fills_from_style_ref: usize,
    /// Painted shapes whose stroke came from such a reference.
    pub strokes_from_style_ref: usize,
    /// Shapes with such a reference that led to nothing.
    pub style_refs_unresolved: usize,
    /// Shapes of a layout or master that were painted.
    pub inherited_shapes_painted: usize,
    /// Such shapes with ink whose outline could not be built.
    pub inherited_shapes_unpainted: usize,
    /// Such shapes that carry a text.
    pub inherited_shapes_with_text: usize,
    /// Such shapes whose text was laid out.
    pub inherited_text_laid_out: usize,
    /// Slides that decline their layout's shapes.
    pub slides_declining_layout: usize,
    /// Slides that decline their master's shapes.
    pub slides_declining_master: usize,
    /// Slides with a painted background.
    pub painted_backgrounds: usize,
    /// Slides whose background is declared to be none.
    pub transparent_backgrounds: usize,
    /// Slides whose background cannot be painted.
    pub unrenderable_backgrounds: usize,
    /// Slides without any declared background.
    pub undeclared_backgrounds: usize,
    /// Runs with a declared colour.
    pub runs_colour_declared: usize,
    /// Runs that are black for want of one.
    pub runs_colour_defaulted: usize,
    /// Runs of just the background's colour.
    pub runs_invisible_on_background: usize,
    /// Pictures.
    pub pictures_seen: usize,
    /// Pictures without an image that can be shown.
    pub pictures_unresolved: usize,
    /// Pictures that declare no outline of their own.
    pub pictures_implicit_rect: usize,
    /// Shapes painted with an image.
    pub blips_painted: usize,
    /// Backgrounds painted with an image.
    pub blip_backgrounds_painted: usize,
    /// Shapes filled with the fill of a group around them.
    pub fills_from_group: usize,
    /// Shapes that ask for such a fill where no group has one.
    pub group_fills_unanswered: usize,
}

impl SlideTally {
    /// Nothing counted yet, in contracts.
    pub open spec fn spec_new() -> SlideTally {
        SlideTally {
            placed_table_cells: 0,
            unplaced_table_cells: 0,
            unplaced_diagram_bodies: 0,
            painted_shapes: 0,
            unpainted_shapes: 0,
            outlines_defaulted_black: 0,
            shapes_with_style: 0,
            fills_from_style_ref: 0,
            strokes_from_style_ref: 0,
            style_refs_unresolved: 0,
            inherited_shapes_painted: 0,
            inherited_shapes_unpainted: 0,
            inherited_shapes_with_text: 0,
            inherited_text_laid_out: 0,
            slides_declining_layout: 0,
            slides_declining_master: 0,
            painted_backgrounds: 0,
            transparent_backgrounds: 0,
            unrenderable_backgrounds: 0,
            undeclared_backgrounds: 0,
            runs_colour_declared: 0,
            runs_colour_defaulted: 0,
            runs_invisible_on_background: 0,
            pictures_seen: 0,
            pictures_unresolved: 0,
            pictures_implicit_rect: 0,
            blips_painted: 0,
            blip_backgrounds_painted: 0,
            fills_from_group: 0,
            group_fills_unanswered: 0,
        }
    }

    /// Nothing counted yet.
    pub fn new() -> (r: SlideTally)
        ensures
            r == SlideTally::spec_new(),
    {
        SlideTally {
            placed_table_cells: 0,
            unplaced_table_cells: 0,
            unplaced_diagram_bodies: 0,
            painted_shapes: 0,
            unpainted_shapes: 0,
            outlines_defaulted_black: 0,
            shapes_with_style: 0,
            fills_from_style_ref: 0,
            strokes_from_style_ref: 0,
            style_refs_unresolved: 0,
            inherited_shapes_painted: 0,
            inherited_shapes_unpainted: 0,
            inherited_shapes_with_text: 0,
            inherited_text_laid_out: 0,
            slides_declining_layout: 0,
            slides_declining_master: 0,
            painted_backgrounds: 0,
            transparent_backgrounds: 0,
            unrenderable_backgrounds: 0,
            undeclared_backgrounds: 0,
            runs_colour_declared: 0,
            runs_colour_defaulted: 0,
            runs_invisible_on_background: 0,
            pictures_seen: 0,
            pictures_unresolved: 0,
            pictures_implicit_rect: 0,
            blips_painted: 0,
            blip_backgrounds_painted: 0,
            fills_from_group: 0,
            group_fills_unanswered: 0,
        }
    }
}

/// One more.
pub open spec fn up(n: usize) -> usize {
    if n == usize::MAX {
        n
    } else {
        (n + 1) as usize
    }
}

/// One more.
pub fn count(n: usize) -> (r: usize)
    ensures
        r == up(n),
{
    if n == usize::MAX {
        n
    } else {
        n + 1
    }
}

// ── Fills ──────────────────────────────────────────────────────────────

/// The contents of a fill.
pub enum FillView {
    NoFill,
    Solid(Rgba),
    Gradient(Seq<GradientStopRgba>, ResolvedGradientKind),
    Blip(usize, Seq<u8>, ImageFormat, Option<CropRect>),
    Pattern(Seq<char>, Rgba, Rgba),
}

impl View for ResolvedFill {
    type V = FillView;

    open spec fn view(&self) -> FillView {
        match *self {
            ResolvedFill::NoFill => FillView::NoFill,
            ResolvedFill::Solid(c) => FillView::Solid(c),
            ResolvedFill::Gradient(g) => FillView::Gradient(g.stops@, g.kind),
            ResolvedFill::Blip(b) => FillView::Blip(
                b.image.media,
                b.image.data@,
                b.image.format,
                b.src_rect,
            ),
            ResolvedFill::Pattern(p) => FillView::Pattern(p.preset@, p.fg, p.bg),
        }
    }
}

/// The contents of an optional fill.
pub open spec fn fill_view(f: Option<ResolvedFill>) -> Option<FillView> {
    match f {
        Some(f) => Some(f@),
        None => None,
    }
}

/// A copy of a fill.
pub fn copy_fill(fill: &ResolvedFill) -> (r: ResolvedFill)
    ensures
        r@ == fill@,
{
    match fill {
        ResolvedFill::NoFill => ResolvedFill::NoFill,
        ResolvedFill::Solid(c) => ResolvedFill::Solid(*c),
        ResolvedFill::Gradient(g) => {
            let stops = g.stops.clone();
            assert(stops@ =~= g.stops@);
            ResolvedFill::Gradient(ResolvedGradient { stops, kind: g.kind })
        },
        ResolvedFill::Blip(b) => {
            let data = b.image.data.clone();
            assert(data@ =~= b.image.data@);
            ResolvedFill::Blip(
                ResolvedBlip {
                    image: MediaEntry { media: b.image.media, data, format: b.image.format },
                    src_rect: b.src_rect,
                },
            )
        },
        ResolvedFill::Pattern(p) => ResolvedFill::Pattern(
            ResolvedPattern { preset: p.preset.clone(), fg: p.fg, bg: p.bg },
        ),
    }
}

fn is_no_fill(fill: &ResolvedFill) -> (r: bool)
    ensures
        r == (fill@ is NoFill),
{
    match fill {
        ResolvedFill::NoFill => true,
        _ => false,
    }
}

fn is_blip(fill: &ResolvedFill) -> (r: bool)
    ensures
        r == (fill@ is Blip),
{
    match fill {
        ResolvedFill::Blip(_) => true,
        _ => false,
    }
}

// ── Shapes ─────────────────────────────────────────────────────────────

/// Whether a shape says how it is filled.
#[derive(Clone, Copy, PartialEq, Eq, Structural, Debug)]
pub enum DeclaredFill {
    /// It says nothing.
    Absent,
    /// As the group around it.
    Group,
    /// With a fill of its own, or with none.
    Own,
}

/// A shape's references into the theme's style lists; 0 refers to nothing.
#[derive(Clone, Copy, PartialEq, Eq, Structural, Debug)]
pub struct StyleRefs {
    pub fill_index: u32,
    pub line_index: u32,
}

/// What a shape is painted with.
#[derive(Debug)]
pub struct ShapeInk {
    pub geometry: Option<ShapeGeometry>,
    pub declared_fill: DeclaredFill,
    /// The fill that its own declaration or its style reference led to.
    pub fill: ResolvedFill,
    /// Whether it declares an outline itself.
    pub outline_declared: bool,
    /// The stroke that its own declaration or its style reference led to.
    pub stroke: Option<ResolvedStroke>,
    /// Whether that stroke is black for want of any colour.
    pub stroke_color_defaulted: bool,
    pub effects: Vec<ResolvedEffect>,
}

/// What a group offers its members as a fill.
#[derive(Debug)]
pub enum GroupFill {
    /// Nothing.
    Absent,
    /// What the group around it offers.
    Parent,
    /// A fill of its own, or none.
    Own(ResolvedFill),
}

/// What kind of shape a shape is, as far as painting goes.
#[derive(Debug)]
pub enum PaintKind {
    AutoShape { ink: Option<ShapeInk>, paragraphs: Vec<String> },
    Connector { ink: Option<ShapeInk> },
    /// A picture, and the image that it shows.
    Picture { ink: Option<ShapeInk>, image: ResolvedFill },
    Group { fill: GroupFill, children: Vec<PaintShape> },
    GraphicFrame,
}

/// A shape to be painted.
#[derive(Debug)]
pub struct PaintShape {
    pub slide_rect: Option<SlideRect>,
    pub style: Option<StyleRefs>,
    pub kind: PaintKind,
}

/// Which part a shape comes from.
#[derive(Clone, Copy, PartialEq, Eq, Structural, Debug)]
pub enum Rung {
    /// The slide itself.
    Slide,
    /// The slide's layout or master.
    Inherited,
}

/// What a shape is painted with; groups and frames have nothing of the kind.
pub open spec fn ink_of(s: PaintShape) -> Option<ShapeInk> {
    match s.kind {
        PaintKind::AutoShape { ink, .. } => ink,
        PaintKind::Connector { ink } => ink,
        PaintKind::Picture { ink, .. } => ink,
        PaintKind::Group { .. } => None,
        PaintKind::GraphicFrame => None,
    }
}

/// Whether a shape carries a text of its own.
pub open spec fn has_text(s: PaintShape) -> bool {
    match s.kind {
        PaintKind::AutoShape { paragraphs, .. } => exists|i: int|
            0 <= i < paragraphs@.len() && (#[trigger] paragraphs@[i])@.len() > 0,
        _ => false,
    }
}

/// The fill of a shape's frame: its own, or that of the group around it.
pub open spec fn frame_fill(ink: ShapeInk, group: Option<FillView>) -> FillView {
    if ink.declared_fill == DeclaredFill::Group {
        match group {
            Some(f) => f,
            None => FillView::NoFill,
        }
    } else {
        ink.fill@
    }
}

/// The fill that is painted: a picture's image goes over the fill of its
/// frame.
pub open spec fn painted_fill(s: PaintShape, ink: ShapeInk, group: Option<FillView>) -> FillView {
    match s.kind {
        PaintKind::Picture { image, .. } => if image@ is NoFill {
            frame_fill(ink, group)
        } else {
            image@
        },
        _ => frame_fill(ink, group),
    }
}

/// Whether there is any ink to paint.
pub open spec fn has_ink(s: PaintShape, ink: ShapeInk, group: Option<FillView>) -> bool {
    !(painted_fill(s, ink, group) is NoFill) || ink.stroke is Some
}

/// The look of a shape. A picture that declares none is a rectangle.
pub open spec fn look_of(s: PaintShape, ink: ShapeInk) -> Option<ShapeGeometry> {
    match ink.geometry {
        Some(g) => Some(g),
        None => if s.kind is Picture {
            Some(ShapeGeometry::Rect)
        } else {
            None
        },
    }
}

/// Whether a shape with ink can be painted: it has a place and a look that can
/// be built.
pub open spec fn can_paint(s: PaintShape, ink: ShapeInk) -> bool {
    match (s.slide_rect, look_of(s, ink)) {
        (Some(r), Some(g)) => pptx_shapes::buildable(g, r.bounding_box.size),
        _ => false,
    }
}

/// Whether a shape that is no group is painted.
pub open spec fn is_painted(s: PaintShape, group: Option<FillView>) -> bool {
    match ink_of(s) {
        Some(ink) => has_ink(s, ink, group) && can_paint(s, ink),
        None => false,
    }
}

/// Whether a reference into the theme was made and led to nothing.
pub open spec fn style_missed(s: PaintShape, ink: ShapeInk, group: Option<FillView>) -> bool {
    match s.style {
        Some(style) => {
            ||| ink.declared_fill == DeclaredFill::Absent && style.fill_index != 0 && frame_fill(
                ink,
                group,
            ) is NoFill
            ||| !ink.outline_declared && style.line_index != 0 && ink.stroke is None
        },
        None => false,
    }
}

/// One more shape painted, or with ink that could not be painted.
pub open spec fn tallied(t: SlideTally, rung: Rung, painted: bool) -> SlideTally {
    match (rung, painted) {
        (Rung::Slide, true) => SlideTally { painted_shapes: up(t.painted_shapes), ..t },
        (Rung::Slide, false) => SlideTally { unpainted_shapes: up(t.unpainted_shapes), ..t },
        (Rung::Inherited, true) => SlideTally {
            inherited_shapes_painted: up(t.inherited_shapes_painted),
            ..t
        },
        (Rung::Inherited, false) => SlideTally {
            inherited_shapes_unpainted: up(t.inherited_shapes_unpainted),
            ..t
        },
    }
}

/// What is counted of a shape whether or not it is painted.
pub open spec fn seen_tally(
    t: SlideTally,
    s: PaintShape,
    ink: ShapeInk,
    rung: Rung,
    group: Option<FillView>,
) -> SlideTally {
    let asks_group = ink.declared_fill == DeclaredFill::Group;
    let empty = frame_fill(ink, group) is NoFill;
    SlideTally {
        inherited_shapes_with_text: if rung == Rung::Inherited && has_text(s) {
            up(t.inherited_shapes_with_text)
        } else {
            t.inherited_shapes_with_text
        },
        group_fills_unanswered: if asks_group && empty {
            up(t.group_fills_unanswered)
        } else {
            t.group_fills_unanswered
        },
        fills_from_group: if asks_group && !empty {
            up(t.fills_from_group)
        } else {
            t.fills_from_group
        },
        shapes_with_style: if s.style is Some {
            up(t.shapes_with_style)
        } else {
            t.shapes_with_style
        },
        style_refs_unresolved: if style_missed(s, ink, group) {
            up(t.style_refs_unresolved)
        } else {
            t.style_refs_unresolved
        },
        pictures_seen: if s.kind is Picture {
            up(t.pictures_seen)
        } else {
            t.pictures_seen
        },
        pictures_unresolved: if s.kind matches PaintKind::Picture { image, .. } && image@ is NoFill {
            up(t.pictures_unresolved)
        } else {
            t.pictures_unresolved
        },
        ..t
    }
}

/// What is counted of a shape with ink.
pub open spec fn ink_tally(
    t: SlideTally,
    s: PaintShape,
    ink: ShapeInk,
    rung: Rung,
    group: Option<FillView>,
) -> SlideTally {
    if s.slide_rect is None {
        tallied(t, rung, false)
    } else {
        let u = if ink.geometry is None && s.kind is Picture {
            SlideTally { pictures_implicit_rect: up(t.pictures_implicit_rect), ..t }
        } else {
            t
        };
        if can_paint(s, ink) {
            let v = SlideTally {
                outlines_defaulted_black: if ink.stroke_color_defaulted {
                    up(u.outlines_defaulted_black)
                } else {
                    u.outlines_defaulted_black
                },
                fills_from_style_ref: if ink.declared_fill == DeclaredFill::Absent && !(frame_fill(
                    ink,
                    group,
                ) is NoFill) {
                    up(u.fills_from_style_ref)
                } else {
                    u.fills_from_style_ref
                },
                strokes_from_style_ref: if !ink.outline_declared && ink.stroke is Some {
                    up(u.strokes_from_style_ref)
                } else {
                    u.strokes_from_style_ref
                },
                blips_painted: if painted_fill(s, ink, group) is Blip {
                    up(u.blips_painted)
                } else {
                    u.blips_painted
                },
                ..u
            };
            tallied(v, rung, true)
        } else {
            tallied(u, rung, false)
        }
    }
}

/// What is counted of a shape, its members left out.
pub open spec fn shape_tally(
    t: SlideTally,
    s: PaintShape,
    rung: Rung,
    group: Option<FillView>,
) -> SlideTally {
    match ink_of(s) {
        Some(ink) => {
            let u = seen_tally(t, s, ink, rung, group);
            if has_ink(s, ink, group) {
                ink_tally(u, s, ink, rung, group)
            } else {
                u
            }
        },
        None => t,
    }
}

/// Whether `c` paints the shape `s`.
pub open spec fn is_shape_path(c: DrawCommand, s: PaintShape, group: Option<FillView>) -> bool {
    match (c, s.slide_rect, ink_of(s)) {
        (
            DrawCommand::Path {
                origin,
                rotation,
                flip_h,
                flip_v,
                extent,
                paths,
                fill,
                stroke,
                effects,
            },
            Some(r),
            Some(ink),
        ) => {
            &&& origin == r.bounding_box.origin
            &&& rotation == r.rotation
            &&& flip_h == r.flip_h
            &&& flip_v == r.flip_v
            &&& extent == r.bounding_box.size
            &&& look_of(s, ink) is Some
            &&& pptx_shapes::is_outline(paths, look_of(s, ink)->0, extent)
            &&& fill@ == painted_fill(s, ink, group)
            &&& stroke == ink.stroke
            &&& effects == ink.effects
        },
        _ => false,
    }
}

/// What a group offers its members, given what is offered to it. A chain of
/// groups that point to their parents is followed to its end.
pub open spec fn offered(fill: GroupFill, parent: Option<FillView>) -> Option<FillView> {
    match fill {
        GroupFill::Absent => None,
        GroupFill::Parent => parent,
        GroupFill::Own(f) => if f@ is NoFill {
            None
        } else {
            Some(f@)
        },
    }
}

/// The shapes that are painted, in document order, each with the fill that the
/// group around it offers.
pub open spec fn painted_shapes(s: PaintShape, group: Option<FillView>) -> Seq<
    (PaintShape, Option<FillView>),
>
    decreases s,
{
    match s.kind {
        PaintKind::Group { fill, children } => painted_list(
            children@,
            children@.len() as int,
            offered(fill, group),
        ),
        _ => if is_painted(s, group) {
            seq![(s, group)]
        } else {
            seq![]
        },
    }
}

/// The painted shapes among the first `n` of a list.
pub open spec fn painted_list(shapes: Seq<PaintShape>, n: int, group: Option<FillView>) -> Seq<
    (PaintShape, Option<FillView>),
>
    decreases shapes, n,
{
    if n <= 0 || n > shapes.len() {
        seq![]
    } else {
        painted_list(shapes, n - 1, group) + painted_shapes(shapes[n - 1], group)
    }
}

/// What is counted of a shape and its members.
pub open spec fn paint_tally(
    t: SlideTally,
    s: PaintShape,
    rung: Rung,
    group: Option<FillView>,
) -> SlideTally
    decreases s,
{
    match s.kind {
        PaintKind::Group { fill, children } => paint_tallies(
            t,
            children@,
            children@.len() as int,
            rung,
            offered(fill, group),
        ),
        _ => shape_tally(t, s, rung, group),
    }
}

/// What is counted of the first `n` shapes of a list.
pub open spec fn paint_tallies(
    t: SlideTally,
    shapes: Seq<PaintShape>,
    n: int,
    rung: Rung,
    group: Option<FillView>,
) -> SlideTally
    decreases shapes, n,
{
    if n <= 0 || n > shapes.len() {
        t
    } else {
        paint_tally(paint_tallies(t, shapes, n - 1, rung, group), shapes[n - 1], rung, group)
    }
}

/// Whether `added` paint the shapes of a list, one each and in order.
pub open spec fn are_shape_paths(
    added: Seq<DrawCommand>,
    list: Seq<(PaintShape, Option<FillView>)>,
) -> bool {
    &&& added.len() == list.len()
    &&& forall|k: int|
        0 <= k < list.len() ==> is_shape_path(#[trigger] added[k], list[k].0, list[k].1)
}

fn any_text(paragraphs: &Vec<String>) -> (r: bool)
    ensures
        r == exists|i: int|
            0 <= i < paragraphs@.len() && (#[trigger] paragraphs@[i])@.len() > 0,
{
    let mut i: usize = 0;
    while i < paragraphs.len()
        invariant
            i <= paragraphs@.len(),
            forall|j: int| 0 <= j < i ==> (#[trigger] paragraphs@[j])@.len() == 0,
        decreases paragraphs@.len() - i,
    {
        if paragraphs[i].as_str().unicode_len() > 0 {
            return true;
        }
        i += 1;
    }
    false
}

impl SlideTally {
    /// Counts one shape that was painted, or whose ink could not be.
    pub fn tally(&mut self, rung: Rung, painted: bool)
        ensures
            *final(self) == tallied(*old(self), rung, painted),
    {
        match (rung, painted) {
            (Rung::Slide, true) => {
                self.painted_shapes = count(self.painted_shapes);
            },
            (Rung::Slide, false) => {
                self.unpainted_shapes = count(self.unpainted_shapes);
            },
            (Rung::Inherited, true) => {
                self.inherited_shapes_painted = count(self.inherited_shapes_painted);
            },
            (Rung::Inherited, false) => {
                self.inherited_shapes_unpainted = count(self.inherited_shapes_unpainted);
            },
        }
    }
}

/// The fill of a shape's frame.
fn frame_fill_of(
    declared: DeclaredFill,
    fill: &ResolvedFill,
    group: &Option<ResolvedFill>,
) -> (r: ResolvedFill)
    ensures
        r@ == (if declared == DeclaredFill::Group {
            match *group {
                Some(f) => f@,
                None => FillView::NoFill,
            }
        } else {
            fill@
        }),
{
    match declared {
        DeclaredFill::Group => match group {
            Some(f) => copy_fill(f),
            None => ResolvedFill::NoFill,
        },
        _ => copy_fill(fill),
    }
}

/// Counts what is counted of a shape whether or not it is painted, and gives
/// the fill that it would be painted with.
fn see_ink(
    style: Option<StyleRefs>,
    ink: &ShapeInk,
    frame: ResolvedFill,
    image: Option<ResolvedFill>,
    has_words: bool,
    rung: Rung,
    tally: &mut SlideTally,
    Ghost(s): Ghost<PaintShape>,
    Ghost(g): Ghost<Option<FillView>>,
) -> (fill: ResolvedFill)
    requires
        s.style == style,
        has_words == has_text(s),
        frame@ == frame_fill(*ink, g),
        match image {
            Some(f) => s.kind matches PaintKind::Picture { image: i, .. } && i == f,
            None => !(s.kind is Picture),
        },
    ensures
        *final(tally) == seen_tally(*old(tally), s, *ink, rung, g),
        fill@ == painted_fill(s, *ink, g),
{
    if let Rung::Inherited = rung {
        if has_words {
            tally.inherited_shapes_with_text = count(tally.inherited_shapes_with_text);
        }
    }
    let empty = is_no_fill(&frame);
    if let DeclaredFill::Group = ink.declared_fill {
        if empty {
            tally.group_fills_unanswered = count(tally.group_fills_unanswered);
        } else {
            tally.fills_from_group = count(tally.fills_from_group);
        }
    }
    let undeclared = match ink.declared_fill {
        DeclaredFill::Absent => true,
        _ => false,
    };
    if let Some(refs) = style {
        let missed_fill = undeclared && refs.fill_index != 0 && empty;
        let missed_stroke = !ink.outline_declared && refs.line_index != 0 && ink.stroke.is_none();
        tally.shapes_with_style = count(tally.shapes_with_style);
        if missed_fill || missed_stroke {
            tally.style_refs_unresolved = count(tally.style_refs_unresolved);
        }
    }
    match image {
        Some(shown) => {
            tally.pictures_seen = count(tally.pictures_seen);
            if is_no_fill(&shown) {
                tally.pictures_unresolved = count(tally.pictures_unresolved);
                frame
            } else {
                shown
            }
        },
        None => frame,
    }
}

/// Paints a shape with ink where it can be painted, and counts it.
fn put_ink(
    slide_rect: Option<SlideRect>,
    ink: ShapeInk,
    fill: ResolvedFill,
    fill_from_ref: bool,
    is_picture: bool,
    rung: Rung,
    tally: &mut SlideTally,
    commands: &mut Vec<DrawCommand>,
    Ghost(s): Ghost<PaintShape>,
    Ghost(g): Ghost<Option<FillView>>,
)
    requires
        s.slide_rect == slide_rect,
        ink_of(s) == Some(ink),
        is_picture == (s.kind is Picture),
        fill@ == painted_fill(s, ink, g),
        has_ink(s, ink, g),
        fill_from_ref == (ink.declared_fill == DeclaredFill::Absent && !(frame_fill(
            ink,
            g,
        ) is NoFill)),
    ensures
        *final(tally) == ink_tally(*old(tally), s, ink, rung, g),
        can_paint(s, ink) ==> final(commands)@.len() == old(commands)@.len() + 1 && final(commands)@.drop_last() == old(commands)@ && is_shape_path(final(commands)@.last(), s, g),
        !can_paint(s, ink) ==> final(commands)@ == old(commands)@,
{
    let rect = match slide_rect {
        Some(r) => r,
        None => {
            tally.tally(rung, false);
            return;
        },
    };
    let extent = rect.bounding_box.size;
    let stroke_from_ref = !ink.outline_declared && ink.stroke.is_some();
    let defaulted = ink.stroke_color_defaulted;
    let geometry = match ink.geometry {
        Some(look) => look,
        None => if is_picture {
            tally.pictures_implicit_rect = count(tally.pictures_implicit_rect);
            ShapeGeometry::Rect
        } else {
            tally.tally(rung, false);
            return;
        },
    };
    let path = match pptx_shapes::build_geometry(geometry, extent) {
        Some(p) => p,
        None => {
            tally.tally(rung, false);
            return;
        },
    };
    if defaulted {
        tally.outlines_defaulted_black = count(tally.outlines_defaulted_black);
    }
    if fill_from_ref {
        tally.fills_from_style_ref = count(tally.fills_from_style_ref);
    }
    if stroke_from_ref {
        tally.strokes_from_style_ref = count(tally.strokes_from_style_ref);
    }
    tally.tally(rung, true);
    if is_blip(&fill) {
        tally.blips_painted = count(tally.blips_painted);
    }
    let ghost before = commands@;
    commands.push(
        DrawCommand::Path {
            origin: rect.bounding_box.origin,
            rotation: rect.rotation,
            flip_h: rect.flip_h,
            flip_v: rect.flip_v,
            extent,
            paths: path.paths,
            fill,
            stroke: ink.stroke,
            effects: ink.effects,
        },
    );
    assert(commands@.drop_last() =~= before);
}

/// Paints one shape with the ink `ink`, and counts it. `image` is given for a
/// picture, and `has_words` says whether the shape carries a text.
fn paint_ink(
    slide_rect: Option<SlideRect>,
    style: Option<StyleRefs>,
    ink: ShapeInk,
    image: Option<ResolvedFill>,
    has_words: bool,
    rung: Rung,
    group: &Option<ResolvedFill>,
    tally: &mut SlideTally,
    commands: &mut Vec<DrawCommand>,
    Ghost(s): Ghost<PaintShape>,
)
    requires
        s.slide_rect == slide_rect,
        s.style == style,
        ink_of(s) == Some(ink),
        has_words == has_text(s),
        match image {
            Some(f) => s.kind matches PaintKind::Picture { image: i, .. } && i == f,
            None => !(s.kind is Picture),
        },
    ensures
        *final(tally) == shape_tally(*old(tally), s, rung, fill_view(*group)),
        is_painted(s, fill_view(*group)) ==> final(commands)@.len() == old(commands)@.len() + 1
            && final(commands)@.drop_last() == old(commands)@ && is_shape_path(
            final(commands)@.last(),
            s,
            fill_view(*group),
        ),
        !is_painted(s, fill_view(*group)) ==> final(commands)@ == old(commands)@,
{
    let ghost g = fill_view(*group);
    let frame = frame_fill_of(ink.declared_fill, &ink.fill, group);
    let fill_from_ref = match ink.declared_fill {
        DeclaredFill::Absent => !is_no_fill(&frame),
        _ => false,
    };
    let is_picture = image.is_some();
    let fill = see_ink(style, &ink, frame, image, has_words, rung, tally, Ghost(s), Ghost(g));
    if is_no_fill(&fill) && ink.stroke.is_none() {
        return;
    }
    put_ink(
        slide_rect,
        ink,
        fill,
        fill_from_ref,
        is_picture,
        rung,
        tally,
        commands,
        Ghost(s),
        Ghost(g),
    );
}

/// What a group offers its members, given what is offered to it.
fn group_fill_for(fill: GroupFill, parent: &Option<ResolvedFill>) -> (r: Option<ResolvedFill>)
    ensures
        fill_view(r) == offered(fill, fill_view(*parent)),
{
    match fill {
        GroupFill::Absent => None,
        GroupFill::Parent => match parent {
            Some(f) => Some(copy_fill(f)),
            None => None,
        },
        GroupFill::Own(f) => if is_no_fill(&f) {
            None
        } else {
            Some(f)
        },
    }
}

/// Paints a shape, or the members of a group, and counts what was done.
fn paint_shape(
    shape: PaintShape,
    rung: Rung,
    group: &Option<ResolvedFill>,
    tally: &mut SlideTally,
    commands: &mut Vec<DrawCommand>,
)
    ensures
        *final(tally) == paint_tally(*old(tally), shape, rung, fill_view(*group)),
        old(commands)@.is_prefix_of(final(commands)@),
        are_shape_paths(
            final(commands)@.skip(old(commands)@.len() as int),
            painted_shapes(shape, fill_view(*group)),
        ),
    decreases shape,
{
    let ghost s = shape;
    let ghost g = fill_view(*group);
    let ghost start = commands@;
    let slide_rect = shape.slide_rect;
    let style = shape.style;
    match shape.kind {
        PaintKind::AutoShape { ink, paragraphs } => {
            if let Some(ink) = ink {
                let words = any_text(&paragraphs);
                paint_ink(
                    slide_rect,
                    style,
                    ink,
                    None,
                    words,
                    rung,
                    group,
                    tally,
                    commands,
                    Ghost(s),
                );
            }
            proof {
                lemma_one_path(start, commands@, s, g);
            }
        },
        PaintKind::Connector { ink } => {
            if let Some(ink) = ink {
                paint_ink(
                    slide_rect,
                    style,
                    ink,
                    None,
                    false,
                    rung,
                    group,
                    tally,
                    commands,
                    Ghost(s),
                );
            }
            proof {
                lemma_one_path(start, commands@, s, g);
            }
        },
        PaintKind::Picture { ink, image } => {
            if let Some(ink) = ink {
                paint_ink(
                    slide_rect,
                    style,
                    ink,
                    Some(image),
                    false,
                    rung,
                    group,
                    tally,
                    commands,
                    Ghost(s),
                );
            }
            proof {
                lemma_one_path(start, commands@, s, g);
            }
        },
        PaintKind::Group { fill, children } => {
            let inherited = group_fill_for(fill, group);
            paint_shapes(children, rung, &inherited, tally, commands);
        },
        PaintKind::GraphicFrame => {
            assert(commands@.skip(start.len() as int) =~= seq![]);
        },
    }
}

proof fn lemma_one_path(
    before: Seq<DrawCommand>,
    after: Seq<DrawCommand>,
    s: PaintShape,
    group: Option<FillView>,
)
    requires
        !(s.kind is Group),
        is_painted(s, group) ==> after.len() == before.len() + 1 && after.drop_last() == before
            && is_shape_path(after.last(), s, group),
        !is_painted(s, group) ==> after == before,
    ensures
        before.is_prefix_of(after),
        are_shape_paths(after.skip(before.len() as int), painted_shapes(s, group)),
{
    if is_painted(s, group) {
        assert(after =~= before.push(after.last()));
        assert(after.skip(before.len() as int) =~= seq![after.last()]);
    } else {
        assert(after.skip(before.len() as int) =~= seq![]);
    }
}

/// Paints the shapes of a list in document order, which is the order in which
/// they lie over each other, and counts what was done.
pub fn paint_shapes(
    shapes: Vec<PaintShape>,
    rung: Rung,
    group: &Option<ResolvedFill>,
    tally: &mut SlideTally,
    commands: &mut Vec<DrawCommand>,
)
    ensures
        *final(tally) == paint_tallies(
            *old(tally),
            shapes@,
            shapes@.len() as int,
            rung,
            fill_view(*group),
        ),
        old(commands)@.is_prefix_of(final(commands)@),
        are_shape_paths(
            final(commands)@.skip(old(commands)@.len() as int),
            painted_list(shapes@, shapes@.len() as int, fill_view(*group)),
        ),
    decreases shapes,
{
    let ghost start = commands@;
    let ghost counted = *tally;
    let ghost all = shapes@;
    let ghost g = fill_view(*group);
    assert(commands@.skip(start.len() as int) =~= seq![]);
    for shape in it: shapes
        invariant
            it.seq() == all,
            all == shapes@,
            g == fill_view(*group),
            *tally == paint_tallies(counted, all, it.index() as int, rung, g),
            start.is_prefix_of(commands@),
            are_shape_paths(
                commands@.skip(start.len() as int),
                painted_list(all, it.index() as int, g),
            ),
    {
        let ghost k = it.index() as int;
        let ghost before = commands@;
        assert(decreases_to!(shapes => shapes@));
        assert(decreases_to!(shapes@ => shapes@[k]));
        paint_shape(shape, rung, group, tally, commands);
        proof {
            let head = before.skip(start.len() as int);
            let tail = commands@.skip(before.len() as int);
            assert(commands@.skip(start.len() as int) =~= head + tail);
        }
    }
}

// ── Background ─────────────────────────────────────────────────────────

/// A slide's background: what it resolves to, and whether it is declared to be
/// none.
#[derive(Debug)]
pub struct Background {
    pub fill: ResolvedFill,
    pub declared_none: bool,
}

/// What is counted of a slide's background.
pub open spec fn background_tally(
    t: SlideTally,
    background: Option<Background>,
    page_size: PtSize,
) -> SlideTally {
    match background {
        None => SlideTally { undeclared_backgrounds: up(t.undeclared_backgrounds), ..t },
        Some(b) => if b.fill@ is NoFill {
            if b.declared_none {
                SlideTally { transparent_backgrounds: up(t.transparent_backgrounds), ..t }
            } else {
                SlideTally { unrenderable_backgrounds: up(t.unrenderable_backgrounds), ..t }
            }
        } else if background_painted(background, page_size) {
            SlideTally {
                painted_backgrounds: up(t.painted_backgrounds),
                blip_backgrounds_painted: if b.fill@ is Blip {
                    up(t.blip_backgrounds_painted)
                } else {
                    t.blip_backgrounds_painted
                },
                ..t
            }
        } else {
            t
        },
    }
}

/// Whether a slide's background is painted: it has a fill, and the slide has
/// an extent.
pub open spec fn background_painted(background: Option<Background>, page_size: PtSize) -> bool {
    match background {
        None => false,
        Some(b) => !(b.fill@ is NoFill) && page_size.width.emu > 0 && page_size.height.emu > 0,
    }
}

/// The colour of a painted background, where it is a single one.
pub open spec fn background_color(background: Option<Background>, page_size: PtSize) -> Option<
    u32,
> {
    match background {
        None => None,
        Some(b) => match b.fill@ {
            FillView::Solid(c) => if background_painted(background, page_size) {
                Some(rgb24(c))
            } else {
                None
            },
            _ => None,
        },
    }
}

/// A channel in millionths as a byte, to the nearest.
pub open spec fn channel_byte(v: i32) -> int {
    (raster::clamp_channel(v as int) * 255 + 500_000) / 1_000_000
}

/// A colour as 24 bits, its opacity left out.
pub open spec fn rgb24(c: Rgba) -> u32 {
    (channel_byte(c.r) * 65536 + channel_byte(c.g) * 256 + channel_byte(c.b)) as u32
}

/// Whether `c` paints a fill over the whole slide.
pub open spec fn is_backdrop(c: DrawCommand, fill: FillView, page_size: PtSize) -> bool {
    match c {
        DrawCommand::Path {
            origin,
            rotation,
            flip_h,
            flip_v,
            extent,
            paths,
            fill: f,
            stroke,
            effects,
        } => {
            &&& origin.x == Pt::spec_zero()
            &&& origin.y == Pt::spec_zero()
            &&& rotation.units == 0
            &&& !flip_h
            &&& !flip_v
            &&& extent == page_size
            &&& pptx_shapes::is_preset_outline(paths@, pptx_shapes::rect_verbs(page_size))
            &&& f@ == fill
            &&& stroke is None
            &&& effects@.len() == 0
        },
        _ => false,
    }
}

fn byte_of(v: i32) -> (r: u32)
    ensures
        r == channel_byte(v),
        r <= 255,
{
    let c: i64 = if v < 0 {
        0
    } else if v > 1_000_000 {
        1_000_000
    } else {
        v as i64
    };
    ((c * 255 + 500_000) / 1_000_000) as u32
}

fn rgb24_of(c: Rgba) -> (r: u32)
    ensures
        r == rgb24(c),
{
    byte_of(c.r) * 65536 + byte_of(c.g) * 256 + byte_of(c.b)
}

/// Paints a slide's background, and counts what became of it. Gives the place
/// of its command and the background's colour, where it has a single one.
pub fn paint_background(
    background: Option<Background>,
    page_size: PtSize,
    tally: &mut SlideTally,
    commands: &mut Vec<DrawCommand>,
) -> (r: (Option<usize>, Option<u32>))
    ensures
        *final(tally) == background_tally(*old(tally), background, page_size),
        r.1 == background_color(background, page_size),
        match r.0 {
            Some(at) => {
                &&& background_painted(background, page_size)
                &&& at == old(commands)@.len()
                &&& final(commands)@.len() == at + 1
                &&& final(commands)@.drop_last() == old(commands)@
                &&& is_backdrop(final(commands)@[at as int], background->0.fill@, page_size)
            },
            None => !background_painted(background, page_size) && final(commands)@ == old(commands)@,
        },
{
    let bg = match background {
        Some(b) => b,
        None => {
            tally.undeclared_backgrounds = count(tally.undeclared_backgrounds);
            return (None, None);
        },
    };
    if is_no_fill(&bg.fill) {
        if bg.declared_none {
            tally.transparent_backgrounds = count(tally.transparent_backgrounds);
        } else {
            tally.unrenderable_backgrounds = count(tally.unrenderable_backgrounds);
        }
        return (None, None);
    }
    let path = match pptx_shapes::build_geometry(ShapeGeometry::Rect, page_size) {
        Some(p) => p,
        None => {
            return (None, None);
        },
    };
    tally.painted_backgrounds = count(tally.painted_backgrounds);
    if is_blip(&bg.fill) {
        tally.blip_backgrounds_painted = count(tally.blip_backgrounds_painted);
    }
    let color = match &bg.fill {
        ResolvedFill::Solid(c) => Some(rgb24_of(*c)),
        _ => None,
    };
    let at: usize = commands.len();
    let ghost before = commands@;
    commands.push(
        DrawCommand::Path {
            origin: PtOffset { x: Pt::zero(), y: Pt::zero() },
            rotation: Angle { units: 0 },
            flip_h: false,
            flip_v: false,
            extent: page_size,
            paths: path.paths,
            fill: bg.fill,
            stroke: None,
            effects: Vec::new(),
        },
    );
    assert(commands@.drop_last() =~= before);
    (Some(at), color)
}

// ── Run colours ────────────────────────────────────────────────────────

/// What is counted of a run's colour on a background.
pub open spec fn run_tally(t: SlideTally, declared: Option<u32>, background: Option<u32>) -> SlideTally {
    SlideTally {
        runs_colour_declared: if declared is Some {
            up(t.runs_colour_declared)
        } else {
            t.runs_colour_declared
        },
        runs_colour_defaulted: if declared is None {
            up(t.runs_colour_defaulted)
        } else {
            t.runs_colour_defaulted
        },
        runs_invisible_on_background: if background == Some(run_rgb(declared)) {
            up(t.runs_invisible_on_background)
        } else {
            t.runs_invisible_on_background
        },
        ..t
    }
}

/// The colour of a run: the declared one, and black where there is none.
pub open spec fn run_rgb(declared: Option<u32>) -> u32 {
    match declared {
        Some(c) => c,
        None => 0,
    }
}

/// What is counted of the first `n` runs of a body.
pub open spec fn run_tallies(
    t: SlideTally,
    declared: Seq<Option<u32>>,
    n: int,
    background: Option<u32>,
) -> SlideTally
    decreases n,
{
    if n <= 0 {
        t
    } else {
        run_tally(run_tallies(t, declared, n - 1, background), declared[n - 1], background)
    }
}

/// The colour that a run with this declaration is painted with, in contracts.
pub open spec fn run_paint(declared: Option<u32>) -> RgbColor {
    RgbColor {
        r: ((run_rgb(declared) / 65536) % 256) as u8,
        g: ((run_rgb(declared) / 256) % 256) as u8,
        b: (run_rgb(declared) % 256) as u8,
    }
}

/// The colour that a run with this declaration is painted with.
pub fn color_of(declared: Option<u32>) -> (r: RgbColor)
    ensures
        r == run_paint(declared),
{
    let rgb: u32 = match declared {
        Some(c) => c,
        None => 0,
    };
    RgbColor {
        r: ((rgb / 65536) % 256) as u8,
        g: ((rgb / 256) % 256) as u8,
        b: (rgb % 256) as u8,
    }
}

/// The colour that a run is painted with, which is counted.
pub fn run_color(declared: Option<u32>, background: Option<u32>, tally: &mut SlideTally) -> (r:
    RgbColor)
    ensures
        *final(tally) == run_tally(*old(tally), declared, background),
        r == run_paint(declared),
{
    let rgb: u32 = match declared {
        Some(c) => {
            tally.runs_colour_declared = count(tally.runs_colour_declared);
            c
        },
        None => {
            tally.runs_colour_defaulted = count(tally.runs_colour_defaulted);
            0
        },
    };
    if let Some(b) = background {
        if b == rgb {
            tally.runs_invisible_on_background = count(tally.runs_invisible_on_background);
        }
    }
    color_of(declared)
}

/// Counts the colours of all runs of a body.
pub fn count_runs(declared: &Vec<Option<u32>>, background: Option<u32>, tally: &mut SlideTally)
    ensures
        *final(tally) == run_tallies(
            *old(tally),
            declared@,
            declared@.len() as int,
            background,
        ),
{
    let ghost start = *tally;
    let mut i: usize = 0;
    while i < declared.len()
        invariant
            i <= declared@.len(),
            *tally == run_tallies(start, declared@, i as int, background),
        decreases declared@.len() - i,
    {
        let _ = run_color(declared[i], background, tally);
        i += 1;
    }
}

}
