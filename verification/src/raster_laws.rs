//! What placing, painting and sizing a raster keep of the page.
use crate::draw_command::{
    DrawCommand, FloatMark, GradientStopRgba, PathVerb, ResolvedDashPattern, ResolvedFill, Rgba,
    ShapeTransform, TransformMark,
};
use crate::geometry::PtSize;
use crate::raster;
use crate::raster::{FillChoice, PaintStep, Placement, RasterPass};
use crate::units::{Direction, Pt};
use vstd::prelude::*;

verus! {

// ── Placement ──────────────────────────────────────────────────────────

/// Whether a placement takes `(x, y)` in a shape's box to `(u, v)` on the page.
pub open spec fn takes(p: Placement, x: int, y: int, u: int, v: int) -> bool {
    &&& 2 * (p.sx * x + p.kx * y) + p.tx == 2147483648 * u
    &&& 2 * (p.ky * x + p.sy * y) + p.ty == 2147483648 * v
}

/// An unturned shape that is mirrored from left to right keeps its rows and
/// exchanges its left and right edges.
pub proof fn horizontal_mirror_exchanges_left_and_right(
    p: Placement,
    t: ShapeTransform,
    d: Direction,
    x: int,
    y: int,
)
    requires
        raster::places(p, t, d),
        t.rotation.units == 0,
        t.flip_h,
        !t.flip_v,
    ensures
        takes(
            p,
            x,
            y,
            t.origin.x.emu + t.extent.width.emu - x,
            t.origin.y.emu + y,
        ),
        p.image_x(x, y) == 2147483648 * (t.origin.x.emu + t.extent.width.emu - x),
        p.image_y(x, y) == 2147483648 * (t.origin.y.emu + y),
{
    lemma_unturned(p, t, d, x, y);
}

/// An unturned shape that is mirrored upside down keeps its columns and exchanges
/// its top and bottom edges.
pub proof fn vertical_mirror_exchanges_top_and_bottom(
    p: Placement,
    t: ShapeTransform,
    d: Direction,
    x: int,
    y: int,
)
    requires
        raster::places(p, t, d),
        t.rotation.units == 0,
        !t.flip_h,
        t.flip_v,
    ensures
        takes(
            p,
            x,
            y,
            t.origin.x.emu + x,
            t.origin.y.emu + t.extent.height.emu - y,
        ),
        p.image_x(x, y) == 2147483648 * (t.origin.x.emu + x),
        p.image_y(x, y) == 2147483648 * (t.origin.y.emu + t.extent.height.emu - y),
{
    lemma_unturned(p, t, d, x, y);
}

/// An unturned shape that is mirrored both ways exchanges opposite corners.
pub proof fn both_mirrors_exchange_corners(
    p: Placement,
    t: ShapeTransform,
    d: Direction,
    x: int,
    y: int,
)
    requires
        raster::places(p, t, d),
        t.rotation.units == 0,
        t.flip_h,
        t.flip_v,
    ensures
        takes(
            p,
            x,
            y,
            t.origin.x.emu + t.extent.width.emu - x,
            t.origin.y.emu + t.extent.height.emu - y,
        ),
{
    lemma_unturned(p, t, d, x, y);
}

proof fn lemma_unturned(p: Placement, t: ShapeTransform, d: Direction, x: int, y: int)
    requires
        raster::places(p, t, d),
        t.rotation.units == 0,
    ensures
        takes(
            p,
            x,
            y,
            t.origin.x.emu + if t.flip_h {
                t.extent.width.emu - x
            } else {
                x
            },
            t.origin.y.emu + if t.flip_v {
                t.extent.height.emu - y
            } else {
                y
            },
        ),
{
    let (w, h) = (t.extent.width.emu as int, t.extent.height.emu as int);
    lemma_ones(p.sx as int, x, w);
    lemma_ones(p.sy as int, y, h);
    lemma_nought(p.kx as int, y, h);
    lemma_nought(p.ky as int, x, w);
}

proof fn lemma_nought(a: int, x: int, w: int)
    by (nonlinear_arith)
    requires
        a == 0,
    ensures
        a * x == 0,
        a * w == 0,
{
}

proof fn lemma_ones(a: int, x: int, w: int)
    by (nonlinear_arith)
    requires
        a == 1073741824 || a == -1073741824,
    ensures
        a == 1073741824 ==> a * x == 1073741824 * x && a * w == 1073741824 * w,
        a == -1073741824 ==> a * x == -1073741824 * x && a * w == -1073741824 * w,
{
}

/// Mirroring comes before turning: a mirrored shape is placed, whatever its turn,
/// as the plain one is with each point exchanged for the one across from it.
pub proof fn mirrors_come_before_the_turn(
    p: Placement,
    t: ShapeTransform,
    q: Placement,
    u: ShapeTransform,
    d: Direction,
    x: int,
    y: int,
)
    requires
        raster::places(p, t, d),
        raster::places(q, u, d),
        u.origin == t.origin,
        u.extent == t.extent,
        u.rotation == t.rotation,
        !u.flip_h,
        !u.flip_v,
    ensures
        ({
            let across = if t.flip_h {
                t.extent.width.emu - x
            } else {
                x
            };
            let down = if t.flip_v {
                t.extent.height.emu - y
            } else {
                y
            };
            &&& 2 * (p.sx * x + p.kx * y) + p.tx == 2 * (q.sx * across + q.kx * down) + q.tx
            &&& 2 * (p.ky * x + p.sy * y) + p.ty == 2 * (q.ky * across + q.sy * down) + q.ty
        }),
{
    let (w, h) = (t.extent.width.emu as int, t.extent.height.emu as int);
    lemma_mirror(q.sx as int, x, w);
    lemma_mirror(q.kx as int, y, h);
    lemma_mirror(q.ky as int, x, w);
    lemma_mirror(q.sy as int, y, h);
}

proof fn lemma_mirror(a: int, x: int, w: int)
    by (nonlinear_arith)
    ensures
        a * (w - x) == a * w - a * x,
        (-a) * x == -(a * x),
        (-a) * w == -(a * w),
{
}

/// A turned shape goes clockwise about its own middle: what lies right of the
/// middle goes down, and what lies below it goes left, as far as the turn's sine
/// and cosine say.
pub proof fn turns_go_clockwise_about_the_middle(
    p: Placement,
    t: ShapeTransform,
    d: Direction,
    x: int,
    y: int,
)
    requires
        raster::places(p, t, d),
        t.rotation.units != 0,
        !t.flip_h,
        !t.flip_v,
    ensures
        ({
            let (w, h) = (t.extent.width.emu as int, t.extent.height.emu as int);
            let right = 2 * x - w;
            let below = 2 * y - h;
            &&& 2 * (p.sx * x + p.kx * y) + p.tx == 1073741824 * (2 * t.origin.x.emu + w) + d.cos
                * right - d.sin * below
            &&& 2 * (p.ky * x + p.sy * y) + p.ty == 1073741824 * (2 * t.origin.y.emu + h) + d.sin
                * right + d.cos * below
        }),
{
    let (w, h) = (t.extent.width.emu as int, t.extent.height.emu as int);
    let (s, c) = (d.sin as int, d.cos as int);
    lemma_twice(c, x, w);
    lemma_twice(c, y, h);
    lemma_twice(s, x, w);
    lemma_twice(s, y, h);
}

proof fn lemma_twice(a: int, x: int, w: int)
    by (nonlinear_arith)
    ensures
        a * (2 * x - w) == 2 * (a * x) - a * w,
        (-a) * x == -(a * x),
        (-a) * w == -(a * w),
{
}

/// The direction of a turn counts for nothing where there is no turn.
pub proof fn unturned_shapes_ignore_the_direction(
    p: Placement,
    q: Placement,
    t: ShapeTransform,
    d: Direction,
    e: Direction,
)
    requires
        raster::places(p, t, d),
        raster::places(q, t, e),
        t.rotation.units == 0,
    ensures
        p.sx == q.sx && p.kx == q.kx && p.ky == q.ky && p.sy == q.sy && p.tx == q.tx && p.ty == q.ty,
{
}

/// Placing a shape elsewhere moves every point of it alike.
pub proof fn placed_elsewhere_moves_alike(
    p: Placement,
    t: ShapeTransform,
    q: Placement,
    u: ShapeTransform,
    d: Direction,
)
    requires
        raster::places(p, t, d),
        raster::places(q, u, d),
        u.extent == t.extent,
        u.rotation == t.rotation,
        u.flip_h == t.flip_h,
        u.flip_v == t.flip_v,
    ensures
        q.sx == p.sx && q.kx == p.kx && q.ky == p.ky && q.sy == p.sy,
        q.tx - p.tx == 2147483648 * (u.origin.x.emu - t.origin.x.emu),
        q.ty - p.ty == 2147483648 * (u.origin.y.emu - t.origin.y.emu),
{
}

// ── Size ───────────────────────────────────────────────────────────────

/// The pixels along an edge are as many as the edge's length at the scale, to the
/// nearest whole number, and never none; on a page over the ceiling they are those
/// that fit whole.
pub proof fn edges_have_as_many_pixels_as_fit(v: Pt, scale: u64, n: int)
    requires
        0 < v.emu,
        n == raster::pixels(v, scale, false),
        914_400_000_000_000_000 <= v.emu * scale,
        v.emu * scale < 914_400_000_000_000_000 * (u32::MAX - 1),
    ensures
        914_400_000_000_000_000 * n - 457_200_000_000_000_000 <= v.emu * scale
            < 914_400_000_000_000_000 * n + 457_200_000_000_000_000,
        ({
            let m = raster::pixels(v, scale, true);
            914_400_000_000_000_000 * m <= v.emu * scale < 914_400_000_000_000_000 * (m + 1)
        }),
{
    let at_scale = v.emu * scale;
    let q = (at_scale + 457_200_000_000_000_000) / 914_400_000_000_000_000;
    assert(914_400_000_000_000_000 * q <= at_scale + 457_200_000_000_000_000
        < 914_400_000_000_000_000 * (q + 1));
    assert(1 <= q <= u32::MAX);
    assert(n == q);
}

/// An edge of no length, or of less than half a pixel, still has one pixel.
pub proof fn edges_have_a_pixel(v: Pt, scale: u64, clamped: bool)
    requires
        v.emu <= 0 || 2 * (v.emu * scale) < 914_400_000_000_000_000,
    ensures
        raster::pixels(v, scale, clamped) == 1,
{
}

/// A page of at most thirty-two million pixels is rastered at the scale asked for;
/// any other at the greatest scale at which it has no more.
pub proof fn scales_shrink_no_further_than_the_ceiling(w: Pt, h: Pt, scale: int, r: int, s: int)
    requires
        raster::is_effective(w, h, scale, r),
        12_700 <= w.emu,
        12_700 <= h.emu,
        0 <= s <= scale,
        (s * s) * (w.emu * h.emu) <= 32_000_000int * 914_400_000_000_000_000int
            * 914_400_000_000_000_000int,
    ensures
        s <= r <= scale,
        (r * r) * (w.emu * h.emu) <= 32_000_000int * 914_400_000_000_000_000int
            * 914_400_000_000_000_000int,
{
    let area = w.emu * h.emu;
    assert(area >= 0) by (nonlinear_arith)
        requires
            area == w.emu * h.emu,
            12_700 <= w.emu,
            12_700 <= h.emu,
    ;
    if !raster::within_ceiling(w, h, scale) && s > r {
        assert((r + 1) * (r + 1) * area <= (s * s) * area) by (nonlinear_arith)
            requires
                0 <= r,
                r + 1 <= s,
                0 <= area,
        ;
    }
}

/// An edge under a point counts as one of a point when a page is held against the
/// ceiling.
pub proof fn small_edges_count_as_a_point(w: Pt, h: Pt, scale: int)
    requires
        w.emu < 12_700,
    ensures
        raster::within_ceiling(w, h, scale) == raster::within_ceiling((Pt { emu: 12_700 }), h, scale),
        raster::within_ceiling(h, w, scale) == raster::within_ceiling(h, (Pt { emu: 12_700 }), scale),
{
}

// ── Layers ─────────────────────────────────────────────────────────────

/// Whether a command stands inside the brackets of a floating span.
pub open spec fn inside_float(cmds: Seq<DrawCommand>, i: int) -> bool {
    exists|b: int|
        0 <= b < i && #[trigger] cmds[b] == DrawCommand::Float(FloatMark::Begin) && forall|j: int|
            b < j < i ==> #[trigger] cmds[j] != DrawCommand::Float(FloatMark::End)
}

proof fn lemma_floating(cmds: Seq<DrawCommand>, i: int)
    requires
        0 <= i <= cmds.len(),
    ensures
        raster::floating_at(cmds, i) == inside_float(cmds, i),
    decreases i,
{
    if i > 0 {
        lemma_floating(cmds, i - 1);
        match cmds[i - 1] {
            DrawCommand::Float(FloatMark::Begin) => {
                assert(cmds[i - 1] == DrawCommand::Float(FloatMark::Begin));
            },
            DrawCommand::Float(FloatMark::End) => {
                assert forall|b: int|
                    0 <= b < i && #[trigger] cmds[b] == DrawCommand::Float(
                        FloatMark::Begin,
                    ) implies exists|j: int|
                    b < j < i && #[trigger] cmds[j] == DrawCommand::Float(FloatMark::End) by {
                    assert(cmds[i - 1] == DrawCommand::Float(FloatMark::End));
                }
            },
            _ => {
                if inside_float(cmds, i - 1) {
                    let b = choose|b: int|
                        0 <= b < i - 1 && #[trigger] cmds[b] == DrawCommand::Float(FloatMark::Begin)
                            && forall|j: int|
                            b < j < i - 1 ==> #[trigger] cmds[j] != DrawCommand::Float(
                                FloatMark::End,
                            );
                    assert forall|j: int| b < j < i implies #[trigger] cmds[j]
                        != DrawCommand::Float(FloatMark::End) by {}
                    assert(cmds[b] == DrawCommand::Float(FloatMark::Begin));
                }
                if inside_float(cmds, i) {
                    let b = choose|b: int|
                        0 <= b < i && #[trigger] cmds[b] == DrawCommand::Float(FloatMark::Begin)
                            && forall|j: int|
                            b < j < i ==> #[trigger] cmds[j] != DrawCommand::Float(FloatMark::End);
                    assert(b < i - 1);
                    assert(cmds[b] == DrawCommand::Float(FloatMark::Begin));
                }
            },
        }
    }
}

/// How far from the paper a command is painted: shapes lowest, then areas, then
/// images, then text and rules; above all what floats. The others paint nothing.
pub open spec fn height_above_paper(cmds: Seq<DrawCommand>, i: int) -> Option<int> {
    let cmd = cmds[i];
    if !(cmd is Path || cmd is Rect || cmd is Image || cmd is Text || cmd is Underline
        || cmd is Line || cmd is EmojiCluster) {
        None
    } else if inside_float(cmds, i) || cmd is Image && cmd->Image_float {
        Some(5)
    } else if cmd is Path {
        Some(1)
    } else if cmd is Rect {
        Some(2)
    } else if cmd is Image {
        Some(3)
    } else {
        Some(4)
    }
}

/// A page is painted from the paper upwards, and what lies equally high in the
/// order of its commands: of two commands that paint, the lower is painted first.
pub proof fn pages_are_painted_from_the_paper_upwards(
    cmds: Seq<DrawCommand>,
    steps: Seq<PaintStep>,
    k: int,
    l: int,
)
    requires
        raster::is_paint_plan(cmds, steps),
        0 <= k < l < steps.len(),
    ensures
        ({
            let (i, j) = (steps[k].command as int, steps[l].command as int);
            &&& i < cmds.len() && j < cmds.len()
            &&& height_above_paper(cmds, i) matches Some(a) && height_above_paper(
                cmds,
                j,
            ) matches Some(b) && (a < b || a == b && i < j)
        }),
{
    let (i, j) = (steps[k].command as int, steps[l].command as int);
    assert(raster::step_of(cmds, steps[k]));
    assert(raster::step_of(cmds, steps[l]));
    lemma_floating(cmds, i);
    lemma_floating(cmds, j);
    assert(raster::before(steps[k], steps[l]));
}

/// Every command that paints is painted, in the pass of its kind.
pub proof fn commands_paint_in_their_pass(cmds: Seq<DrawCommand>, steps: Seq<PaintStep>, i: int)
    requires
        raster::is_paint_plan(cmds, steps),
        0 <= i < cmds.len(),
    ensures
        match height_above_paper(cmds, i) {
            Some(h) => exists|k: int|
                0 <= k < steps.len() && (#[trigger] steps[k]).command == i && steps[k].pass == (
                if h == 1 {
                    RasterPass::Shape
                } else if h == 2 {
                    RasterPass::Shading
                } else if h == 3 {
                    RasterPass::Media
                } else if h == 4 {
                    RasterPass::Ink
                } else {
                    RasterPass::Float
                }),
            None => forall|k: int|
                0 <= k < steps.len() ==> (#[trigger] steps[k]).command != i,
        },
{
    lemma_floating(cmds, i);
    match height_above_paper(cmds, i) {
        Some(_) => {
            assert(raster::pass_at(cmds, i) is Some);
            assert(raster::painted(steps, i));
            let k = choose|k: int| 0 <= k < steps.len() && (#[trigger] steps[k]).command == i;
            assert(raster::step_of(cmds, steps[k]));
        },
        None => {
            assert forall|k: int| 0 <= k < steps.len() implies (#[trigger] steps[k]).command
                != i by {
                assert(raster::step_of(cmds, steps[k]));
            }
        },
    }
}

proof fn lemma_bracket(cmds: Seq<DrawCommand>, i: int)
    requires
        0 <= i <= cmds.len() <= usize::MAX,
    ensures
        match raster::bracket_at(cmds, i) {
            Some(b) => {
                &&& b < i
                &&& cmds[b as int] matches DrawCommand::Transform(TransformMark::Begin(_))
                &&& forall|j: int| b < j < i ==> !(#[trigger] cmds[j] is Transform)
            },
            None => forall|b: int|
                0 <= b < i && (#[trigger] cmds[b] matches DrawCommand::Transform(
                    TransformMark::Begin(_),
                )) ==> exists|j: int|
                    b < j < i && #[trigger] cmds[j] == DrawCommand::Transform(TransformMark::End),
        },
    decreases i,
{
    if i > 0 {
        lemma_bracket(cmds, i - 1);
        match cmds[i - 1] {
            DrawCommand::Transform(TransformMark::Begin(_)) => {},
            DrawCommand::Transform(TransformMark::End) => {
                assert(cmds[i - 1] == DrawCommand::Transform(TransformMark::End));
            },
            _ => {
                if raster::bracket_at(cmds, i - 1) is None {
                    assert forall|b: int|
                        0 <= b < i && (#[trigger] cmds[b] matches DrawCommand::Transform(
                            TransformMark::Begin(_),
                        )) implies exists|j: int|
                        b < j < i && #[trigger] cmds[j] == DrawCommand::Transform(
                            TransformMark::End,
                        ) by {
                        assert(b < i - 1);
                        let j = choose|j: int|
                            b < j < i - 1 && #[trigger] cmds[j] == DrawCommand::Transform(
                                TransformMark::End,
                            );
                        assert(cmds[j] == DrawCommand::Transform(TransformMark::End));
                    }
                }
            },
        }
    }
}

/// A command is painted under the transform whose brackets it stands in: the last
/// one that begins before it, with no other mark between them.
pub proof fn commands_are_painted_under_their_transform(
    cmds: Seq<DrawCommand>,
    steps: Seq<PaintStep>,
    k: int,
)
    requires
        raster::is_paint_plan(cmds, steps),
        0 <= k < steps.len(),
        cmds.len() <= usize::MAX,
    ensures
        ({
            let i = steps[k].command as int;
            match steps[k].bracket {
                Some(b) => {
                    &&& b < i
                    &&& cmds[b as int] matches DrawCommand::Transform(TransformMark::Begin(_))
                    &&& forall|j: int| b < j < i ==> !(#[trigger] cmds[j] is Transform)
                },
                None => forall|b: int|
                    0 <= b < i && (#[trigger] cmds[b] matches DrawCommand::Transform(
                        TransformMark::Begin(_),
                    )) ==> exists|j: int|
                        b < j < i && #[trigger] cmds[j] == DrawCommand::Transform(
                            TransformMark::End,
                        ),
            }
        }),
{
    assert(raster::step_of(cmds, steps[k]));
    lemma_bracket(cmds, steps[k].command as int);
}

// ── Fills and strokes ──────────────────────────────────────────────────

/// Whether a channel comes out as it went in, held to what can be shown.
pub open spec fn held_in_range(was: int, is: int) -> bool {
    &&& 0 <= was <= 1_000_000 ==> is == was
    &&& was < 0 ==> is == 0
    &&& was > 1_000_000 ==> is == 1_000_000
}

/// A colour keeps each of its channels, held to what can be shown.
pub proof fn colours_keep_their_channels(c: Rgba)
    ensures
        held_in_range(c.r as int, raster::clamp_color(c).r as int),
        held_in_range(c.g as int, raster::clamp_color(c).g as int),
        held_in_range(c.b as int, raster::clamp_color(c).b as int),
        held_in_range(c.a as int, raster::clamp_color(c).a as int),
{
}

/// A plain fill paints its own colour, and nothing where that is see-through; no
/// fill and a pattern paint nothing.
pub proof fn plain_fills_paint_their_colour(blip: Option<(u32, u32)>, extent: PtSize, fill: ResolvedFill)
    ensures
        fill is NoFill || fill is Pattern ==> raster::fill_choice(fill, blip, extent) is Nothing,
        fill matches ResolvedFill::Solid(c) ==> match raster::fill_choice(fill, blip, extent) {
            FillChoice::Nothing => c.a <= 0,
            FillChoice::Solid(s) => {
                &&& c.a > 0
                &&& held_in_range(c.r as int, s.r as int)
                &&& held_in_range(c.g as int, s.g as int)
                &&& held_in_range(c.b as int, s.b as int)
                &&& held_in_range(c.a as int, s.a as int)
            },
            FillChoice::Stretch { .. } => false,
        },
{
}

/// An image fills a shape where it was decoded and both have an area: stretched
/// from its own size to the shape's.
pub proof fn images_are_stretched_over_their_shape(
    fill: ResolvedFill,
    blip: Option<(u32, u32)>,
    extent: PtSize,
)
    requires
        fill is Blip,
    ensures
        match raster::fill_choice(fill, blip, extent) {
            FillChoice::Stretch { image_width, image_height, extent: e } => {
                &&& blip == Some((image_width, image_height))
                &&& image_width > 0 && image_height > 0
                &&& e == extent && extent.width.emu > 0 && extent.height.emu > 0
            },
            FillChoice::Nothing => blip is None || (blip->0).0 == 0 || (blip->0).1 == 0
                || extent.width.emu <= 0 || extent.height.emu <= 0,
            FillChoice::Solid(_) => false,
        },
{
}

/// A gradient of two stops is painted in the colour halfway between them, and one
/// of none, or of see-through stops, not at all.
pub proof fn gradients_paint_the_colour_between(
    fill: ResolvedFill,
    blip: Option<(u32, u32)>,
    extent: PtSize,
    a: Rgba,
    b: Rgba,
)
    requires
        fill matches ResolvedFill::Gradient(g) && g.stops@.len() == 2 && g.stops@[0].color == a
            && g.stops@[1].color == b,
    ensures
        match raster::fill_choice(fill, blip, extent) {
            FillChoice::Solid(s) => {
                &&& a.a + b.a > 0
                &&& held_in_range((a.r + b.r) / 2, s.r as int)
                &&& held_in_range((a.g + b.g) / 2, s.g as int)
                &&& held_in_range((a.b + b.b) / 2, s.b as int)
                &&& held_in_range((a.a + b.a) / 2, s.a as int)
            },
            FillChoice::Nothing => a.a + b.a <= 0,
            FillChoice::Stretch { .. } => false,
        },
{
    let stops = fill->Gradient_0.stops@;
    lemma_two(stops, |c: Rgba| c.r as int);
    lemma_two(stops, |c: Rgba| c.g as int);
    lemma_two(stops, |c: Rgba| c.b as int);
    lemma_two(stops, |c: Rgba| c.a as int);
}

proof fn lemma_two(stops: Seq<GradientStopRgba>, channel: spec_fn(Rgba) -> int)
    requires
        stops.len() == 2,
    ensures
        raster::channel_sum(stops, channel) == channel(stops[0].color) + channel(stops[1].color),
{
    reveal_with_fuel(raster::channel_sum, 3);
}

proof fn lemma_between(
    stops: Seq<GradientStopRgba>,
    channel: spec_fn(Rgba) -> int,
    lo: int,
    hi: int,
)
    requires
        forall|i: int|
            0 <= i < stops.len() ==> lo <= channel((#[trigger] stops[i]).color) <= hi,
    ensures
        lo * stops.len() <= raster::channel_sum(stops, channel) <= hi * stops.len(),
    decreases stops.len(),
{
    let n = stops.len() as int;
    if n > 0 {
        let most = stops.drop_last();
        assert forall|i: int| 0 <= i < most.len() implies lo <= channel(
            (#[trigger] most[i]).color,
        ) <= hi by {
            assert(most[i] == stops[i]);
        }
        lemma_between(most, channel, lo, hi);
        assert(stops.last() == stops[n - 1]);
        assert(lo * n == lo * (n - 1) + lo && hi * n == hi * (n - 1) + hi) by (nonlinear_arith);
    } else {
        assert(lo * n == 0 && hi * n == 0) by (nonlinear_arith)
            requires
                n == 0,
        ;
    }
}

/// The colour of a gradient lies between those of its stops, so stops of one
/// colour are painted in it.
pub proof fn gradients_stay_between_their_stops(
    stops: Seq<GradientStopRgba>,
    lo: Rgba,
    hi: Rgba,
)
    requires
        0 < stops.len(),
        forall|i: int|
            0 <= i < stops.len() ==> lo.r <= (#[trigger] stops[i]).color.r <= hi.r && lo.g
                <= stops[i].color.g <= hi.g && lo.b <= stops[i].color.b <= hi.b && lo.a
                <= stops[i].color.a <= hi.a,
    ensures
        lo.r <= raster::mean_color(stops).r <= hi.r,
        lo.g <= raster::mean_color(stops).g <= hi.g,
        lo.b <= raster::mean_color(stops).b <= hi.b,
        lo.a <= raster::mean_color(stops).a <= hi.a,
{
    let n = stops.len() as int;
    let (r, g) = (|c: Rgba| c.r as int, |c: Rgba| c.g as int);
    let (b, a) = (|c: Rgba| c.b as int, |c: Rgba| c.a as int);
    lemma_between(stops, r, lo.r as int, hi.r as int);
    lemma_between(stops, g, lo.g as int, hi.g as int);
    lemma_between(stops, b, lo.b as int, hi.b as int);
    lemma_between(stops, a, lo.a as int, hi.a as int);
    lemma_share(raster::channel_sum(stops, r), n, lo.r as int, hi.r as int);
    lemma_share(raster::channel_sum(stops, g), n, lo.g as int, hi.g as int);
    lemma_share(raster::channel_sum(stops, b), n, lo.b as int, hi.b as int);
    lemma_share(raster::channel_sum(stops, a), n, lo.a as int, hi.a as int);
}

proof fn lemma_share(sum: int, n: int, lo: int, hi: int)
    by (nonlinear_arith)
    requires
        n > 0,
        lo * n <= sum <= hi * n,
    ensures
        lo <= sum / n <= hi,
{
}

/// A dashed line goes on as its dashes say: those of an even number once, those of
/// an odd number twice over, so that lines and gaps take turns; a solid one has
/// none.
pub proof fn dashes_take_turns(dash: ResolvedDashPattern)
    ensures
        match dash {
            ResolvedDashPattern::Solid => raster::dash_lengths(dash) is None,
            ResolvedDashPattern::Dashes(d) => raster::dash_lengths(dash) matches Some(r) && {
                let n = d@.len() as int;
                &&& n % 2 == 0 ==> r.len() == n
                &&& n % 2 == 1 ==> r.len() == 2 * n
                &&& forall|i: int| 0 <= i < n ==> #[trigger] r[i] == d@[i]
                &&& forall|i: int| n <= i < r.len() ==> #[trigger] r[i] == d@[i - n]
            },
        },
{
}

/// A path draws every verb of its outline in order, but for an arc that has no
/// extent or that nothing came before to start from.
pub proof fn paths_draw_their_verbs_in_order(verbs: Seq<PathVerb>, n: int)
    requires
        0 < n <= verbs.len(),
    ensures
        ({
            let before = raster::drawn_verbs(verbs, n - 1);
            let after = raster::drawn_verbs(verbs, n);
            let started = exists|j: int|
                0 <= j < n - 1 && !(#[trigger] verbs[j] is ArcTo) && !(verbs[j] is Close);
            let left_out = verbs[n - 1] matches PathVerb::ArcTo { radii, .. } && (
            radii.width.emu <= 0 || radii.height.emu <= 0 || !started);
            &&& raster::drawn_verbs(verbs, 0).len() == 0
            &&& left_out ==> after == before
            &&& !left_out ==> after == before.push(verbs[n - 1])
        }),
{
    let i = n - 1;
    if raster::pen_down(verbs, i) {
        let j = choose|j: int| 0 <= j < i && raster::sets_pen(#[trigger] verbs[j]);
        assert(!(verbs[j] is ArcTo) && !(verbs[j] is Close));
    } else {
        assert forall|j: int| 0 <= j < i implies #[trigger] verbs[j] is ArcTo
            || verbs[j] is Close by {
            assert(!raster::sets_pen(verbs[j]));
        }
    }
}

}
