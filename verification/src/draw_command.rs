//! Draw commands: what layout puts out, in drawing order, one list per page.
use crate::blocks::Block;
use crate::geometry::{PtLineSegment, PtOffset, PtRect, PtSize};
use crate::units;
use crate::units::{Angle, Pt};
use vstd::prelude::*;

verus! {

/// An opaque colour.
#[derive(Clone, Copy, PartialEq, Eq, Structural, Debug)]
pub struct RgbColor {
    pub r: u8,
    pub g: u8,
    pub b: u8,
}

/// A colour with opacity; each channel in millionths, 0 to 1000000.
#[derive(Clone, Copy, PartialEq, Eq, Structural, Debug)]
pub struct Rgba {
    pub r: i32,
    pub g: i32,
    pub b: i32,
    pub a: i32,
}

/// How a media part is encoded.
#[derive(Clone, Copy, PartialEq, Eq, Structural, Debug)]
pub enum ImageFormat {
    Png,
    Jpeg,
    Gif,
    Bmp,
    Tiff,
    WebP,
    Svg,
    Emf,
    Wmf,
    Unknown,
}

/// The bytes of one media part. Two placements of one part share its `media`
/// number; distinct parts may still hold equal bytes.
#[derive(Debug)]
pub struct MediaEntry {
    pub media: usize,
    pub data: Vec<u8>,
    pub format: ImageFormat,
}

/// One heading, as it appears in the outline.
#[derive(Debug)]
pub struct OutlineHeading {
    /// Structure node number, unique per document and counted from 1.
    pub node_id: i32,
    /// Outline level, counted from 1.
    pub level: u8,
    /// The paragraph's own text, without a list label.
    pub title: String,
}

/// The boundaries of a heading's marked content.
#[derive(Debug)]
pub enum OutlineMark {
    /// Opens the heading's marked content.
    Begin(OutlineHeading),
    /// Closes it.
    End,
}

/// The placement that maps one shape's local coordinates onto the page: flips
/// and rotation happen about the shape's centre, then the shape lands at
/// `origin`.
#[derive(Clone, Copy, PartialEq, Eq, Structural, Debug)]
pub struct ShapeTransform {
    /// Top-left placement anchor in page coordinates.
    pub origin: PtOffset,
    /// Clockwise rotation about the shape's centre.
    pub rotation: Angle,
    /// Mirror horizontally before placement.
    pub flip_h: bool,
    /// Mirror vertically before placement.
    pub flip_v: bool,
    /// The box that the bracketed commands were laid out in.
    pub extent: PtSize,
}

/// The boundaries of one shape's commands. Commands between `Begin` and `End`
/// are in shape-local coordinates. Brackets do not nest.
#[derive(Debug)]
pub enum TransformMark {
    /// Opens a shape-local coordinate space.
    Begin(ShapeTransform),
    /// Closes it, restoring page coordinates.
    End,
}

/// The boundaries of a span that floats above the flow. Spans do not nest.
#[derive(Debug)]
pub enum FloatMark {
    /// Opens a floating span.
    Begin,
    /// Closes it.
    End,
}

/// Which interiors of a subpath are filled.
#[derive(Clone, Copy, PartialEq, Eq, Structural, Debug)]
pub enum PathFillMode {
    NoFill,
    Norm,
    Lighten,
    LightenLess,
    Darken,
    DarkenLess,
}

/// One step of an outline.
#[derive(Clone, Copy, PartialEq, Eq, Structural, Debug)]
pub enum PathVerb {
    MoveTo(PtOffset),
    LineTo(PtOffset),
    QuadTo(PtOffset, PtOffset),
    CubicTo(PtOffset, PtOffset, PtOffset),
    ArcTo { radii: PtSize, start_angle: Angle, swing_angle: Angle },
    Close,
}

/// One outline of a shape, in shape-local coordinates.
#[derive(Debug)]
pub struct SubPath {
    pub verbs: Vec<PathVerb>,
    pub fill_mode: PathFillMode,
    pub stroked: bool,
}

/// What a shape's interior is painted with.
#[derive(Debug)]
pub enum ResolvedFill {
    /// The interior is transparent.
    NoFill,
    /// A single colour.
    Solid(Rgba),
    /// Stops and a direction.
    Gradient(ResolvedGradient),
    /// A stretched image.
    Blip(ResolvedBlip),
    /// A preset pattern.
    Pattern(ResolvedPattern),
}

/// What a shape's outline is drawn with.
#[derive(Debug)]
pub struct ResolvedStroke {
    pub width: Pt,
    pub color: Rgba,
    pub dash: ResolvedDashPattern,
    pub cap: ResolvedLineCap,
    pub join: ResolvedLineJoin,
}

/// How an open end of a stroke looks.
#[derive(Clone, Copy, PartialEq, Eq, Structural, Debug)]
pub enum ResolvedLineCap {
    Butt,
    Round,
    Square,
}

/// How two pieces of a stroke meet.
#[derive(Clone, Copy, PartialEq, Eq, Structural, Debug)]
pub enum ResolvedLineJoin {
    Round,
    Bevel,
    Miter,
}

/// A stroke's dashes: lengths on and off in turn.
#[derive(PartialEq, Eq, Debug)]
pub enum ResolvedDashPattern {
    Solid,
    Dashes(Vec<Pt>),
}

/// An effect painted beside a shape.
#[derive(Clone, Copy, PartialEq, Eq, Structural, Debug)]
pub enum ResolvedEffect {
    OuterShadow { blur_radius: Pt, offset: PtOffset, color: Rgba },
}

/// A gradient fill.
#[derive(Debug)]
pub struct ResolvedGradient {
    pub stops: Vec<GradientStopRgba>,
    pub kind: ResolvedGradientKind,
}

/// One colour of a gradient.
#[derive(Clone, Copy, PartialEq, Eq, Structural, Debug)]
pub struct GradientStopRgba {
    /// Position along the gradient in millionths.
    pub position: i32,
    pub color: Rgba,
}

/// How a gradient runs.
#[derive(Clone, Copy, PartialEq, Eq, Structural, Debug)]
pub enum ResolvedGradientKind {
    /// Along a line; 0 is horizontal, clockwise positive.
    Linear { angle: Angle },
    /// Outwards from the centre.
    Radial,
}

/// A part of an image: the crop's offset and size as millionths of the
/// image's own width and height.
#[derive(Clone, Copy, PartialEq, Eq, Structural, Debug)]
pub struct CropRect {
    pub x: i64,
    pub y: i64,
    pub width: i64,
    pub height: i64,
}

/// An image fill.
#[derive(Debug)]
pub struct ResolvedBlip {
    pub image: MediaEntry,
    /// The part of the image that is used, or all of it.
    pub src_rect: Option<CropRect>,
}

/// A pattern fill, by the name of its preset.
#[derive(Debug)]
pub struct ResolvedPattern {
    pub preset: String,
    pub fg: Rgba,
    pub bg: Rgba,
}

/// A positioned drawing command, in page coordinates unless it stands between
/// two [`TransformMark`]s.
#[derive(Debug)]
pub enum DrawCommand {
    Text {
        /// The left end of the baseline.
        position: PtOffset,
        text: String,
        font_family: String,
        char_spacing: Pt,
        font_size: Pt,
        bold: bool,
        italic: bool,
        color: RgbColor,
        /// Horizontal scale in thousandths.
        text_scale: i32,
    },
    Underline { line: PtLineSegment, color: RgbColor, width: Pt },
    Line { line: PtLineSegment, color: RgbColor, width: Pt },
    Image {
        rect: PtRect,
        image_data: MediaEntry,
        src_rect: Option<CropRect>,
        /// Whether the image lies above the text, not in the flow with it.
        float: bool,
    },
    EmojiCluster {
        rect: PtRect,
        text: String,
        /// Number of the typeface in the font registry.
        typeface: usize,
        size: Pt,
    },
    Rect { rect: PtRect, color: RgbColor },
    /// One word of a hyperlink. The words of one hyperlink share its `target`
    /// number; two hyperlinks to one address do not.
    LinkAnnotation { rect: PtRect, url: String, target: usize },
    /// One word of a link to a bookmark.
    InternalLink { rect: PtRect, destination: String, target: usize },
    /// A bookmark's place.
    NamedDestination { position: PtOffset, name: String },
    /// Brackets one heading's commands. Draws nothing.
    Outline(OutlineMark),
    /// Brackets one shape's commands. Draws nothing.
    Transform(TransformMark),
    /// Brackets a floating span. Draws nothing.
    Float(FloatMark),
    /// A shape's outlines, in shape-local coordinates, and its placement.
    Path {
        origin: PtOffset,
        rotation: Angle,
        flip_h: bool,
        flip_v: bool,
        extent: PtSize,
        paths: Vec<SubPath>,
        fill: ResolvedFill,
        stroke: Option<ResolvedStroke>,
        effects: Vec<ResolvedEffect>,
    },
}

impl DrawCommand {
    /// This command with its page coordinates moved by `(dx, dy)` and nothing
    /// else changed.
    pub open spec fn shifted(self, dx: Pt, dy: Pt) -> DrawCommand {
        match self {
            DrawCommand::Text {
                position,
                text,
                font_family,
                char_spacing,
                font_size,
                bold,
                italic,
                color,
                text_scale,
            } => DrawCommand::Text {
                position: position.spec_shifted(dx, dy),
                text,
                font_family,
                char_spacing,
                font_size,
                bold,
                italic,
                color,
                text_scale,
            },
            DrawCommand::Underline { line, color, width } => DrawCommand::Underline {
                line: line.spec_shifted(dx, dy),
                color,
                width,
            },
            DrawCommand::Line { line, color, width } => DrawCommand::Line {
                line: line.spec_shifted(dx, dy),
                color,
                width,
            },
            DrawCommand::Image { rect, image_data, src_rect, float } => DrawCommand::Image {
                rect: rect.spec_shifted(dx, dy),
                image_data,
                src_rect,
                float,
            },
            DrawCommand::EmojiCluster { rect, text, typeface, size } => DrawCommand::EmojiCluster {
                rect: rect.spec_shifted(dx, dy),
                text,
                typeface,
                size,
            },
            DrawCommand::Rect { rect, color } => DrawCommand::Rect {
                rect: rect.spec_shifted(dx, dy),
                color,
            },
            DrawCommand::LinkAnnotation { rect, url, target } => DrawCommand::LinkAnnotation {
                rect: rect.spec_shifted(dx, dy),
                url,
                target,
            },
            DrawCommand::InternalLink { rect, destination, target } => DrawCommand::InternalLink {
                rect: rect.spec_shifted(dx, dy),
                destination,
                target,
            },
            DrawCommand::NamedDestination { position, name } => DrawCommand::NamedDestination {
                position: position.spec_shifted(dx, dy),
                name,
            },
            DrawCommand::Outline(_) => self,
            DrawCommand::Transform(TransformMark::Begin(t)) => DrawCommand::Transform(
                TransformMark::Begin(
                    ShapeTransform { origin: t.origin.spec_shifted(dx, dy), ..t },
                ),
            ),
            DrawCommand::Transform(TransformMark::End) => self,
            DrawCommand::Float(_) => self,
            DrawCommand::Path {
                origin,
                rotation,
                flip_h,
                flip_v,
                extent,
                paths,
                fill,
                stroke,
                effects,
            } => DrawCommand::Path {
                origin: origin.spec_shifted(dx, dy),
                rotation,
                flip_h,
                flip_v,
                extent,
                paths,
                fill,
                stroke,
                effects,
            },
        }
    }

    /// Moves all page coordinates by `(dx, dy)`.
    pub fn shift(&mut self, dx: Pt, dy: Pt)
        ensures
            *final(self) == old(self).shifted(dx, dy),
    {
        match self {
            DrawCommand::Text { position, .. } => {
                *position = position.shifted(dx, dy);
            },
            DrawCommand::Underline { line, .. } => {
                line.start = line.start.shifted(dx, dy);
                line.end = line.end.shifted(dx, dy);
            },
            DrawCommand::Line { line, .. } => {
                line.start = line.start.shifted(dx, dy);
                line.end = line.end.shifted(dx, dy);
            },
            DrawCommand::Image { rect, .. } => {
                rect.origin = rect.origin.shifted(dx, dy);
            },
            DrawCommand::EmojiCluster { rect, .. } => {
                rect.origin = rect.origin.shifted(dx, dy);
            },
            DrawCommand::Rect { rect, .. } => {
                rect.origin = rect.origin.shifted(dx, dy);
            },
            DrawCommand::LinkAnnotation { rect, .. } => {
                rect.origin = rect.origin.shifted(dx, dy);
            },
            DrawCommand::InternalLink { rect, .. } => {
                rect.origin = rect.origin.shifted(dx, dy);
            },
            DrawCommand::NamedDestination { position, .. } => {
                *position = position.shifted(dx, dy);
            },
            DrawCommand::Path { origin, .. } => {
                *origin = origin.shifted(dx, dy);
            },
            DrawCommand::Outline(_) => {},
            // The origin is the only page coordinate in the run that the
            // bracket opens: what follows it is shape-local.
            DrawCommand::Transform(TransformMark::Begin(t)) => {
                t.origin = t.origin.shifted(dx, dy);
            },
            DrawCommand::Transform(TransformMark::End) => {},
            DrawCommand::Float(_) => {},
        }
    }

    /// The band `(top, bottom)` that this command paints into; `None` where it
    /// paints nothing of its own. A text is taken to reach one font size to
    /// either side of its baseline.
    pub open spec fn band(self) -> Option<(Pt, Pt)> {
        match self {
            DrawCommand::Text { position, font_size, .. } => Some(
                (position.y.spec_minus(font_size), position.y.spec_plus(font_size)),
            ),
            DrawCommand::Underline { line, .. } => Some(
                (line.start.y.spec_min(line.end.y), line.start.y.spec_max(line.end.y)),
            ),
            DrawCommand::Line { line, .. } => Some(
                (line.start.y.spec_min(line.end.y), line.start.y.spec_max(line.end.y)),
            ),
            DrawCommand::Image { rect, .. } => Some(
                (rect.origin.y, rect.origin.y.spec_plus(rect.size.height)),
            ),
            DrawCommand::EmojiCluster { rect, .. } => Some(
                (rect.origin.y, rect.origin.y.spec_plus(rect.size.height)),
            ),
            DrawCommand::Rect { rect, .. } => Some(
                (rect.origin.y, rect.origin.y.spec_plus(rect.size.height)),
            ),
            DrawCommand::Path { origin, extent, .. } => Some(
                (origin.y, origin.y.spec_plus(extent.height)),
            ),
            _ => None,
        }
    }

    /// The vertical band this command paints into, as `(top, bottom)`.
    pub fn vertical_span(&self) -> (r: Option<(Pt, Pt)>)
        ensures
            r == self.band(),
    {
        match self {
            DrawCommand::Text { position, font_size, .. } => {
                Some((position.y.minus(*font_size), position.y.plus(*font_size)))
            },
            DrawCommand::Underline { line, .. } => {
                Some((line.start.y.min(line.end.y), line.start.y.max(line.end.y)))
            },
            DrawCommand::Line { line, .. } => {
                Some((line.start.y.min(line.end.y), line.start.y.max(line.end.y)))
            },
            DrawCommand::Image { rect, .. } => {
                Some((rect.origin.y, rect.origin.y.plus(rect.size.height)))
            },
            DrawCommand::EmojiCluster { rect, .. } => {
                Some((rect.origin.y, rect.origin.y.plus(rect.size.height)))
            },
            DrawCommand::Rect { rect, .. } => {
                Some((rect.origin.y, rect.origin.y.plus(rect.size.height)))
            },
            DrawCommand::Path { origin, extent, .. } => {
                Some((origin.y, origin.y.plus(extent.height)))
            },
            DrawCommand::LinkAnnotation { .. } => None,
            DrawCommand::InternalLink { .. } => None,
            DrawCommand::NamedDestination { .. } => None,
            DrawCommand::Outline(_) => None,
            DrawCommand::Transform(_) => None,
            DrawCommand::Float(_) => None,
        }
    }

    /// Moves all y-coordinates by `dy`.
    pub fn shift_y(&mut self, dy: Pt)
        ensures
            *final(self) == old(self).shifted(Pt::spec_zero(), dy),
    {
        self.shift(Pt::zero(), dy);
    }

    /// Moves all x-coordinates by `dx`.
    pub fn shift_x(&mut self, dx: Pt)
        ensures
            *final(self) == old(self).shifted(dx, Pt::spec_zero()),
    {
        self.shift(dx, Pt::zero());
    }

    /// The page coordinates of this command, in drawing order.
    pub open spec fn anchors(self) -> Seq<PtOffset> {
        match self {
            DrawCommand::Text { position, .. } => seq![position],
            DrawCommand::Underline { line, .. } => seq![line.start, line.end],
            DrawCommand::Line { line, .. } => seq![line.start, line.end],
            DrawCommand::Image { rect, .. } => seq![rect.origin],
            DrawCommand::EmojiCluster { rect, .. } => seq![rect.origin],
            DrawCommand::Rect { rect, .. } => seq![rect.origin],
            DrawCommand::LinkAnnotation { rect, .. } => seq![rect.origin],
            DrawCommand::InternalLink { rect, .. } => seq![rect.origin],
            DrawCommand::NamedDestination { position, .. } => seq![position],
            DrawCommand::Transform(TransformMark::Begin(t)) => seq![t.origin],
            DrawCommand::Path { origin, .. } => seq![origin],
            _ => seq![],
        }
    }

    /// Whether moving by `(dx, dy)` carries no page coordinate out of range.
    pub open spec fn room(self, dx: int, dy: int) -> bool {
        forall|i: int|
            0 <= i < self.anchors().len() ==> units::fits((#[trigger] self.anchors()[i]).x.emu + dx)
                && units::fits(self.anchors()[i].y.emu + dy)
    }
}

/// A laid-out page, ready for painting.
#[derive(Debug)]
pub struct LayoutedPage {
    pub commands: Vec<DrawCommand>,
    pub page_size: PtSize,
    /// Numbers of the body blocks whose first content landed on this page.
    pub block_starts: Vec<usize>,
    /// The header that was picked for this page.
    pub header_blocks: Vec<Block>,
    /// The footer that was picked for this page.
    pub footer_blocks: Vec<Block>,
}

impl LayoutedPage {
    /// An empty page.
    pub fn new(page_size: PtSize) -> (r: LayoutedPage)
        ensures
            r.page_size == page_size,
            r.commands@.len() == 0,
            r.block_starts@.len() == 0,
            r.header_blocks@.len() == 0,
            r.footer_blocks@.len() == 0,
    {
        LayoutedPage {
            commands: Vec::new(),
            page_size,
            block_starts: Vec::new(),
            header_blocks: Vec::new(),
            footer_blocks: Vec::new(),
        }
    }
}

/// Moving by nothing changes nothing.
pub proof fn shift_by_nothing(c: DrawCommand)
    ensures
        c.shifted(Pt::spec_zero(), Pt::spec_zero()) == c,
{
}

/// Every page coordinate of a command moves by the same amount, whatever the
/// command is.
pub proof fn shift_moves_every_anchor(c: DrawCommand, dx: Pt, dy: Pt)
    ensures
        c.shifted(dx, dy).anchors().len() == c.anchors().len(),
        forall|i: int|
            0 <= i < c.anchors().len() ==> c.shifted(dx, dy).anchors()[i] == (
            #[trigger] c.anchors()[i]).spec_shifted(dx, dy),
{
}

proof fn lemma_moved_twice(p: PtOffset, ax: Pt, ay: Pt, bx: Pt, by: Pt)
    requires
        units::fits(p.x.emu + ax.emu),
        units::fits(p.y.emu + ay.emu),
        units::fits(ax.emu + bx.emu),
        units::fits(ay.emu + by.emu),
    ensures
        p.spec_shifted(ax, ay).spec_shifted(bx, by) == p.spec_shifted(
            ax.spec_plus(bx),
            ay.spec_plus(by),
        ),
{
}

/// Two moves are one move by their sum, while nothing leaves the range.
pub proof fn shifts_compose(c: DrawCommand, ax: Pt, ay: Pt, bx: Pt, by: Pt)
    requires
        c.room(ax.emu as int, ay.emu as int),
        units::fits(ax.emu + bx.emu),
        units::fits(ay.emu + by.emu),
    ensures
        c.shifted(ax, ay).shifted(bx, by) == c.shifted(ax.spec_plus(bx), ay.spec_plus(by)),
{
    let n = c.anchors().len();
    if n > 0 {
        assert(units::fits(c.anchors()[0].x.emu + ax.emu));
        lemma_moved_twice(c.anchors()[0], ax, ay, bx, by);
    }
    if n > 1 {
        assert(units::fits(c.anchors()[1].x.emu + ax.emu));
        lemma_moved_twice(c.anchors()[1], ax, ay, bx, by);
    }
    let (sx, sy) = (ax.spec_plus(bx), ay.spec_plus(by));
    match c {
        DrawCommand::Underline { line, .. } => {
            assert(line.spec_shifted(ax, ay).spec_shifted(bx, by) == line.spec_shifted(sx, sy));
        },
        DrawCommand::Line { line, .. } => {
            assert(line.spec_shifted(ax, ay).spec_shifted(bx, by) == line.spec_shifted(sx, sy));
        },
        _ => {},
    }
}

/// A move and the opposite move cancel, while nothing leaves the range.
pub proof fn shift_back(c: DrawCommand, dx: Pt, dy: Pt)
    requires
        c.room(dx.emu as int, dy.emu as int),
        dx.emu > i64::MIN,
        dy.emu > i64::MIN,
    ensures
        c.shifted(dx, dy).shifted(units::pt(-dx.emu), units::pt(-dy.emu)) == c,
{
    shifts_compose(c, dx, dy, units::pt(-dx.emu), units::pt(-dy.emu));
    shift_by_nothing(c);
}

/// Whether both ends of a command's band can be told without saturating,
/// before and after a move by `dy`.
pub open spec fn band_in_range(c: DrawCommand, dy: int) -> bool {
    match c {
        DrawCommand::Text { position, font_size, .. } => units::fits(
            position.y.emu - font_size.emu,
        ) && units::fits(position.y.emu + font_size.emu) && units::fits(
            position.y.emu - font_size.emu + dy,
        ) && units::fits(position.y.emu + font_size.emu + dy),
        DrawCommand::Image { rect, .. } => units::fits(rect.origin.y.emu + rect.size.height.emu)
            && units::fits(rect.origin.y.emu + rect.size.height.emu + dy),
        DrawCommand::EmojiCluster { rect, .. } => units::fits(
            rect.origin.y.emu + rect.size.height.emu,
        ) && units::fits(rect.origin.y.emu + rect.size.height.emu + dy),
        DrawCommand::Rect { rect, .. } => units::fits(rect.origin.y.emu + rect.size.height.emu)
            && units::fits(rect.origin.y.emu + rect.size.height.emu + dy),
        DrawCommand::Path { origin, extent, .. } => units::fits(origin.y.emu + extent.height.emu)
            && units::fits(origin.y.emu + extent.height.emu + dy),
        _ => true,
    }
}

/// A command's band follows the command: a vertical move carries both of its
/// ends, a horizontal one neither, and what paints nothing goes on painting
/// nothing.
pub proof fn band_follows_shift(c: DrawCommand, dx: Pt, dy: Pt)
    requires
        c.room(dx.emu as int, dy.emu as int),
        band_in_range(c, dy.emu as int),
    ensures
        match c.band() {
            Some(b) => c.shifted(dx, dy).band() == Some((b.0.spec_plus(dy), b.1.spec_plus(dy))),
            None => c.shifted(dx, dy).band() is None,
        },
{
    let n = c.anchors().len();
    if n > 0 {
        assert(units::fits(c.anchors()[0].y.emu + dy.emu));
    }
    if n > 1 {
        assert(units::fits(c.anchors()[1].y.emu + dy.emu));
    }
}

/// No band is upside down, provided that no size is negative.
pub proof fn band_is_upright(c: DrawCommand)
    requires
        match c {
            DrawCommand::Text { font_size, .. } => font_size.emu >= 0,
            DrawCommand::Image { rect, .. } => rect.size.height.emu >= 0,
            DrawCommand::EmojiCluster { rect, .. } => rect.size.height.emu >= 0,
            DrawCommand::Rect { rect, .. } => rect.size.height.emu >= 0,
            DrawCommand::Path { extent, .. } => extent.height.emu >= 0,
            _ => true,
        },
    ensures
        c.band() matches Some(b) ==> b.0.emu <= b.1.emu,
{
}

/// Annotations and marks have no band: they paint nothing of their own.
pub proof fn annotations_have_no_band(c: DrawCommand)
    ensures
        c.band() is None <==> (c is LinkAnnotation || c is InternalLink || c is NamedDestination
            || c is Outline || c is Transform || c is Float),
{
}

}
