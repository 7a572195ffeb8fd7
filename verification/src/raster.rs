//! From a laid-out page to a raster: how large it is, what is painted, in
//! which order, and with what.
use crate::draw_command::{
    DrawCommand, FloatMark, GradientStopRgba, LayoutedPage, PathFillMode, PathVerb,
    ResolvedDashPattern, ResolvedFill, ResolvedStroke, Rgba, ShapeTransform, SubPath, TransformMark,
};
use crate::geometry::PtSize;
use crate::units;
use crate::units::{Angle, Direction, Pt, DIRECTION_ONE};
use vstd::prelude::*;

verus! {

// ── Size ───────────────────────────────────────────────────────────────

/// Ceiling on a single page raster, in device pixels.
pub const MAX_PAGE_PIXELS: u64 = 32_000_000;

/// One rasterized page. `rgba` holds `width * height * 4` bytes, row by row,
/// fully opaque.
#[derive(Debug)]
pub struct RasterPage {
    pub rgba: Vec<u8>,
    pub width: u32,
    pub height: u32,
    pub page_width: Pt,
    pub page_height: Pt,
    /// The scale that was used, in trillionths of a dot per inch.
    pub scale: u64,
}

/// One dot per inch, as scales are counted.
pub const ONE_DPI: u64 = 1_000_000_000_000;

/// The side of a page as the scale rule takes it: one point at the least.
pub open spec fn side(v: Pt) -> int {
    if v.emu < 12700 {
        12700
    } else {
        v.emu as int
    }
}

/// Whether a page of this size, drawn at `scale` trillionths of a dot per inch,
/// covers no more pixels than the ceiling. 914400 trillion EMU make one pixel at
/// a scale of one.
pub open spec fn within_ceiling(page_w: Pt, page_h: Pt, scale: int) -> bool {
    (scale * scale) * (side(page_w) * side(page_h)) <= pixel_budget()
}

/// What a scale's square times a page's area may come to.
pub open spec fn pixel_budget() -> int {
    32_000_000int * 914_400_000_000_000_000int * 914_400_000_000_000_000int
}

/// The largest `r` with `r * r <= n`.
fn isqrt(n: u128) -> (r: u64)
    requires
        n < 0x40_0000_0000_0000_0000_0000_0000_0000,
    ensures
        r * r <= n,
        n < (r + 1) * (r + 1),
{
    let mut lo: u64 = 0;
    let mut hi: u64 = 0x800_0000_0000_0000;
    assert(0x800_0000_0000_0000 * 0x800_0000_0000_0000 == 0x40_0000_0000_0000_0000_0000_0000_0000)
        by (nonlinear_arith);
    while hi - lo > 1
        invariant
            lo < hi <= 0x800_0000_0000_0000,
            lo * lo <= n,
            n < hi * hi,
        decreases hi - lo,
    {
        let mid: u64 = lo + (hi - lo) / 2;
        assert(mid * mid <= 0x800_0000_0000_0000 * 0x800_0000_0000_0000) by (nonlinear_arith)
            requires
                0 <= mid <= 0x800_0000_0000_0000,
        ;
        let sq: u128 = (mid as u128) * (mid as u128);
        if sq <= n {
            lo = mid;
        } else {
            hi = mid;
        }
    }
    lo
}

/// Doubled forty-five times, this is the budget of pixels.
const BUDGET_SEED: u128 = 760_453_403_927_385_807_037_353_515_625;

/// `m`, doubled `n` times.
spec fn doubled(m: int, n: int) -> int
    decreases n,
{
    if n <= 0 {
        m
    } else {
        2 * doubled(m, n - 1)
    }
}

proof fn lemma_doubled_grows(m: int, a: int, b: int)
    requires
        m >= 0,
        0 <= a <= b,
    ensures
        0 <= doubled(m, a) <= doubled(m, b),
    decreases b,
{
    if a < b {
        lemma_doubled_grows(m, a, b - 1);
    } else if a > 0 {
        lemma_doubled_grows(m, a - 1, b - 1);
    }
}

/// How many times an area goes into the budget of pixels. The budget is a small
/// number doubled many times, and so is its quotient.
fn budget_over(area: u128) -> (q: u128)
    requires
        161_290_000 <= area <= 0x3fff_ffff_ffff_ffff_0000_0000_0000_0001,
    ensures
        q * area <= pixel_budget() < (q + 1) * area,
        1 <= q < 0x40_0000_0000_0000_0000_0000_0000_0000,
{
    let mut q: u128 = BUDGET_SEED / area;
    let mut rest: u128 = BUDGET_SEED % area;
    assert(q * area + rest == BUDGET_SEED) by (nonlinear_arith)
        requires
            q == BUDGET_SEED / area,
            rest == BUDGET_SEED % area,
            area > 0,
    ;
    assert(doubled(BUDGET_SEED as int, 45) == pixel_budget()) by {
        reveal_with_fuel(doubled, 46);
    }
    let mut i: u32 = 0;
    while i < 45
        invariant
            i <= 45,
            161_290_000 <= area <= 0x3fff_ffff_ffff_ffff_0000_0000_0000_0001,
            rest < area,
            q * area + rest == doubled(BUDGET_SEED as int, i as int),
            doubled(BUDGET_SEED as int, 45) == pixel_budget(),
        decreases 45 - i,
    {
        proof {
            lemma_doubled_grows(BUDGET_SEED as int, i as int, 45);
            lemma_quotient_bound(q as int, area as int);
        }
        let ghost (q0, rest0) = (q, rest);
        q = 2 * q;
        rest = 2 * rest;
        if rest >= area {
            q = q + 1;
            rest = rest - area;
        }
        assert(q * area + rest == 2 * (q0 * area + rest0)) by (nonlinear_arith)
            requires
                (q == 2 * q0 && rest == 2 * rest0) || (q == 2 * q0 + 1 && rest + area == 2 * rest0),
        ;
        i += 1;
    }
    proof {
        lemma_quotient_bound(q as int, area as int);
    }
    assert((q + 1) * area == q * area + area) by (nonlinear_arith);
    assert(q >= 1) by (nonlinear_arith)
        requires
            (q + 1) * area > pixel_budget(),
            area <= 0x3fff_ffff_ffff_ffff_0000_0000_0000_0001,
            q >= 0,
    ;
    q
}

proof fn lemma_quotient_bound(q: int, area: int)
    requires
        q >= 0,
        area >= 161_290_000,
        q * area <= pixel_budget(),
    ensures
        q < 0x40_0000_0000_0000_0000_0000_0000_0000,
{
    assert(q * 161_290_000 <= q * area) by (nonlinear_arith)
        requires
            q >= 0,
            area >= 161_290_000,
    ;
}

/// Whether `r` is the scale at which a page that is asked for at `scale` is
/// drawn.
pub open spec fn is_effective(page_w: Pt, page_h: Pt, scale: int, r: int) -> bool {
    if within_ceiling(page_w, page_h, scale) {
        r == scale
    } else {
        &&& 0 < r < scale
        &&& within_ceiling(page_w, page_h, r)
        &&& !within_ceiling(page_w, page_h, r + 1)
    }
}

/// The scale at which a page that is asked for at `scale` is drawn: `scale`
/// itself where the page then fits under [`MAX_PAGE_PIXELS`], and otherwise
/// the largest scale at which it does. One scale serves both axes, so the
/// aspect ratio is kept.
pub fn effective_scale(page_w: Pt, page_h: Pt, scale: u64) -> (r: u64)
    ensures
        is_effective(page_w, page_h, scale as int, r as int),
{
    let w: u128 = if page_w.emu < 12700 {
        12700
    } else {
        page_w.emu as u128
    };
    let h: u128 = if page_h.emu < 12700 {
        12700
    } else {
        page_h.emu as u128
    };
    assert(12700 * 12700 <= w * h <= 0x7fff_ffff_ffff_ffff * 0x7fff_ffff_ffff_ffff)
        by (nonlinear_arith)
        requires
            12700 <= w <= 0x7fff_ffff_ffff_ffff,
            12700 <= h <= 0x7fff_ffff_ffff_ffff,
    ;
    let area: u128 = w * h;
    let q: u128 = budget_over(area);
    let limit: u64 = isqrt(q);
    proof {
        lemma_budget_square(scale as int, limit as int, q as int, area as int);
        lemma_budget_square(limit as int, limit as int, q as int, area as int);
        lemma_budget_square(limit + 1, limit as int, q as int, area as int);
    }
    if scale <= limit {
        scale
    } else {
        limit
    }
}

proof fn lemma_budget_square(s: int, limit: int, q: int, area: int)
    requires
        area > 0,
        q * area <= pixel_budget() < (q + 1) * area,
        0 <= s,
        0 <= limit,
        limit * limit <= q,
        q < (limit + 1) * (limit + 1),
    ensures
        (s * s) * area <= pixel_budget() <==> s <= limit,
{
    if s <= limit {
        assert(s * s <= limit * limit) by (nonlinear_arith)
            requires
                0 <= s <= limit,
        ;
        assert((s * s) * area <= q * area) by (nonlinear_arith)
            requires
                area > 0,
                s * s <= q,
        ;
    } else {
        assert(s * s >= (limit + 1) * (limit + 1)) by (nonlinear_arith)
            requires
                0 <= limit,
                s >= limit + 1,
        ;
        assert((s * s) * area >= (q + 1) * area) by (nonlinear_arith)
            requires
                area > 0,
                s * s >= q + 1,
        ;
    }
}

/// A scale that was brought down, or that was kept, is kept when it is asked for
/// again.
pub proof fn settled_scale_is_kept(page_w: Pt, page_h: Pt, scale: int, r: int, again: int)
    requires
        is_effective(page_w, page_h, scale, r),
        is_effective(page_w, page_h, r, again),
    ensures
        again == r,
        0 < scale ==> 0 < r <= scale,
{
}

/// The pixels along one side of a page: what `v` measures at `scale`, to the
/// nearest pixel, or down to the pixel below it on a page whose scale was
/// brought down; one pixel at the least.
pub open spec fn pixels(v: Pt, scale: u64, clamped: bool) -> int {
    let n = if v.emu <= 0 {
        0
    } else if clamped {
        (v.emu * scale) / 914_400_000_000_000_000
    } else {
        (v.emu * scale + 457_200_000_000_000_000) / 914_400_000_000_000_000
    };
    if n < 1 {
        1
    } else if n > u32::MAX {
        u32::MAX as int
    } else {
        n
    }
}

fn pixels_of(v: Pt, scale: u64, clamped: bool) -> (r: u32)
    ensures
        r == pixels(v, scale, clamped),
{
    if v.emu <= 0 {
        return 1;
    }
    assert(v.emu * scale <= 0x7fff_ffff_ffff_ffff * 0xffff_ffff_ffff_ffff && 0 <= v.emu * scale)
        by (nonlinear_arith)
        requires
            0 <= v.emu <= 0x7fff_ffff_ffff_ffff,
            0 <= scale <= 0xffff_ffff_ffff_ffff,
    ;
    let product: u128 = (v.emu as u128) * (scale as u128);
    let n: u128 = if clamped {
        product / 914_400_000_000_000_000
    } else {
        (product + 457_200_000_000_000_000) / 914_400_000_000_000_000
    };
    if n < 1 {
        1
    } else if n > u32::MAX as u128 {
        u32::MAX
    } else {
        n as u32
    }
}

/// How large a page's raster is, and at which scale.
#[derive(Clone, Copy, PartialEq, Eq, Structural, Debug)]
pub struct RasterFrame {
    pub width: u32,
    pub height: u32,
    pub scale: u64,
    /// Whether the scale lies below the one that was asked for.
    pub clamped: bool,
}

/// The raster of a page of size `page` that is asked for at `scale`.
pub fn raster_frame(page: PtSize, scale: u64) -> (r: RasterFrame)
    ensures
        r.clamped == !within_ceiling(page.width, page.height, scale as int),
        is_effective(page.width, page.height, scale as int, r.scale as int),
        r.width == pixels(page.width, r.scale, r.clamped),
        r.height == pixels(page.height, r.scale, r.clamped),
{
    let used: u64 = effective_scale(page.width, page.height, scale);
    let clamped = used < scale;
    RasterFrame {
        width: pixels_of(page.width, used, clamped),
        height: pixels_of(page.height, used, clamped),
        scale: used,
        clamped,
    }
}

/// A page whose scale was brought down stays under the ceiling, as long as
/// neither of its sides is thinner than a pixel.
pub proof fn clamped_page_stays_under_ceiling(page: PtSize, scale: u64)
    requires
        within_ceiling(page.width, page.height, scale as int),
        page.width.emu * scale >= 914_400_000_000_000_000,
        page.height.emu * scale >= 914_400_000_000_000_000,
    ensures
        pixels(page.width, scale, true) * pixels(page.height, scale, true) <= MAX_PAGE_PIXELS,
{
    let w = page.width.emu as int;
    let h = page.height.emu as int;
    let s = scale as int;
    assert(w > 0) by (nonlinear_arith)
        requires
            w * s >= 914_400_000_000_000_000,
            s >= 0,
    ;
    assert(h > 0) by (nonlinear_arith)
        requires
            h * s >= 914_400_000_000_000_000,
            s >= 0,
    ;
    let a = (w * s) / 914_400_000_000_000_000;
    let b = (h * s) / 914_400_000_000_000_000;
    assert(a * 914_400_000_000_000_000 <= w * s);
    assert(b * 914_400_000_000_000_000 <= h * s);
    let sw = side(page.width);
    let sh = side(page.height);
    assert((w * s) * (h * s) <= (s * s) * (sw * sh)) by {
        assert((w * s) * (h * s) == (s * s) * (w * h)) by (nonlinear_arith);
        assert(w * h <= sw * sh) by (nonlinear_arith)
            requires
                0 < w <= sw,
                0 < h <= sh,
        ;
        assert((s * s) * (w * h) <= (s * s) * (sw * sh)) by (nonlinear_arith)
            requires
                0 <= s,
                w * h <= sw * sh,
        ;
    }
    assert((a * 914_400_000_000_000_000) * (b * 914_400_000_000_000_000) <= (w * s) * (h * s))
        by (nonlinear_arith)
        requires
            0 <= a,
            0 <= b,
            a * 914_400_000_000_000_000 <= w * s,
            b * 914_400_000_000_000_000 <= h * s,
    ;
    assert((a * 914_400_000_000_000_000) * (b * 914_400_000_000_000_000) == (a * b) * (
    914_400_000_000_000_000 * 914_400_000_000_000_000))
        by (nonlinear_arith);
    assert(a * b <= 32_000_000) by (nonlinear_arith)
        requires
            (a * b) * (914_400_000_000_000_000 * 914_400_000_000_000_000) <= pixel_budget(),
    ;
    let pa = pixels(page.width, scale, true);
    let pb = pixels(page.height, scale, true);
    assert(1 <= a && 1 <= b);
    assert(pa * pb <= a * b) by (nonlinear_arith)
        requires
            0 <= pa <= a,
            0 <= pb <= b,
    ;
}

/// A page that fits keeps the scale it was asked for at, and so does every
/// smaller page, and every page asked for at a lower scale.
pub proof fn fitting_is_monotone(w: Pt, h: Pt, scale: int, w2: Pt, h2: Pt, scale2: int)
    requires
        within_ceiling(w, h, scale),
        w2.emu <= w.emu,
        h2.emu <= h.emu,
        0 <= scale2 <= scale,
    ensures
        within_ceiling(w2, h2, scale2),
{
    let (a, b, a2, b2) = (side(w), side(h), side(w2), side(h2));
    assert(scale2 * scale2 <= scale * scale) by (nonlinear_arith)
        requires
            0 <= scale2 <= scale,
    ;
    assert(0 <= a2 * b2 <= a * b) by (nonlinear_arith)
        requires
            0 <= a2 <= a,
            0 <= b2 <= b,
    ;
    let (p, q, p2, q2) = (scale * scale, a * b, scale2 * scale2, a2 * b2);
    assert(0 <= p2) by (nonlinear_arith)
        requires
            p2 == scale2 * scale2,
    ;
    assert(p2 * q2 <= p * q) by (nonlinear_arith)
        requires
            0 <= p2 <= p,
            0 <= q2 <= q,
    ;
}

// ── Paint order ────────────────────────────────────────────────────────

/// The paint layers, lowest first.
#[derive(Clone, Copy, PartialEq, Eq, Structural, Debug)]
pub enum RasterPass {
    /// Shape geometry.
    Shape,
    /// Highlight and shading boxes.
    Shading,
    /// Images that sit in the flow.
    Media,
    /// Glyphs, emoji, underlines and rules.
    Ink,
    /// What floats above the flow.
    Float,
}

impl RasterPass {
    /// The place of a layer in the painting order.
    pub open spec fn rank(self) -> int {
        match self {
            RasterPass::Shape => 0,
            RasterPass::Shading => 1,
            RasterPass::Media => 2,
            RasterPass::Ink => 3,
            RasterPass::Float => 4,
        }
    }
}

/// The layer that a command paints in by itself; `None` where it paints
/// nothing.
pub open spec fn native_pass(cmd: DrawCommand) -> Option<RasterPass> {
    match cmd {
        DrawCommand::Path { .. } => Some(RasterPass::Shape),
        DrawCommand::Rect { .. } => Some(RasterPass::Shading),
        DrawCommand::Image { float, .. } => Some(
            if float {
                RasterPass::Float
            } else {
                RasterPass::Media
            },
        ),
        DrawCommand::Text { .. } => Some(RasterPass::Ink),
        DrawCommand::Underline { .. } => Some(RasterPass::Ink),
        DrawCommand::Line { .. } => Some(RasterPass::Ink),
        DrawCommand::EmojiCluster { .. } => Some(RasterPass::Ink),
        _ => None,
    }
}

/// The layer that a command paints in by itself; `None` where it paints
/// nothing.
pub fn raster_pass(cmd: &DrawCommand) -> (r: Option<RasterPass>)
    ensures
        r == native_pass(*cmd),
{
    match cmd {
        DrawCommand::Path { .. } => Some(RasterPass::Shape),
        DrawCommand::Rect { .. } => Some(RasterPass::Shading),
        DrawCommand::Image { float, .. } => if *float {
            Some(RasterPass::Float)
        } else {
            Some(RasterPass::Media)
        },
        DrawCommand::Text { .. } => Some(RasterPass::Ink),
        DrawCommand::Underline { .. } => Some(RasterPass::Ink),
        DrawCommand::Line { .. } => Some(RasterPass::Ink),
        DrawCommand::EmojiCluster { .. } => Some(RasterPass::Ink),
        DrawCommand::LinkAnnotation { .. } => None,
        DrawCommand::InternalLink { .. } => None,
        DrawCommand::NamedDestination { .. } => None,
        DrawCommand::Outline(_) => None,
        DrawCommand::Transform(_) => None,
        DrawCommand::Float(_) => None,
    }
}

/// The bracket that is open when the `i`th command is reached: the index of
/// its `Begin`.
pub open spec fn bracket_at(cmds: Seq<DrawCommand>, i: int) -> Option<usize>
    decreases i,
{
    if i <= 0 {
        None
    } else {
        match cmds[i - 1] {
            DrawCommand::Transform(TransformMark::Begin(_)) => Some((i - 1) as usize),
            DrawCommand::Transform(TransformMark::End) => None,
            _ => bracket_at(cmds, i - 1),
        }
    }
}

/// Whether a floating span is open when the `i`th command is reached.
pub open spec fn floating_at(cmds: Seq<DrawCommand>, i: int) -> bool
    decreases i,
{
    if i <= 0 {
        false
    } else {
        match cmds[i - 1] {
            DrawCommand::Float(FloatMark::Begin) => true,
            DrawCommand::Float(FloatMark::End) => false,
            _ => floating_at(cmds, i - 1),
        }
    }
}

/// The layer that the `i`th command paints in: its own, or the floating one
/// inside a floating span. What paints nothing paints nothing there either.
pub open spec fn pass_at(cmds: Seq<DrawCommand>, i: int) -> Option<RasterPass> {
    match native_pass(cmds[i]) {
        Some(p) => if floating_at(cmds, i) {
            Some(RasterPass::Float)
        } else {
            Some(p)
        },
        None => None,
    }
}

/// One command to paint: its layer, its index, and the bracket whose placement
/// applies to it.
#[derive(Clone, Copy, PartialEq, Eq, Structural, Debug)]
pub struct PaintStep {
    pub pass: RasterPass,
    pub command: usize,
    pub bracket: Option<usize>,
}

/// Whether a step says of its command what the command list says.
pub open spec fn step_of(cmds: Seq<DrawCommand>, s: PaintStep) -> bool {
    &&& s.command < cmds.len()
    &&& pass_at(cmds, s.command as int) == Some(s.pass)
    &&& s.bracket == bracket_at(cmds, s.command as int)
}

/// Whether `a` is painted before `b`: in a lower layer, or in the same layer
/// and earlier in the list.
pub open spec fn before(a: PaintStep, b: PaintStep) -> bool {
    a.pass.rank() < b.pass.rank() || (a.pass == b.pass && a.command < b.command)
}

/// Whether some step paints the `i`th command.
pub open spec fn painted(steps: Seq<PaintStep>, i: int) -> bool {
    exists|k: int| 0 <= k < steps.len() && (#[trigger] steps[k]).command == i
}

/// The painting order of a page: exactly the commands that paint, layer by
/// layer, and in stream order within a layer.
pub open spec fn is_paint_plan(cmds: Seq<DrawCommand>, steps: Seq<PaintStep>) -> bool {
    &&& forall|k: int| 0 <= k < steps.len() ==> step_of(cmds, #[trigger] steps[k])
    &&& forall|k: int, l: int|
        0 <= k < l < steps.len() ==> before(#[trigger] steps[k], #[trigger] steps[l])
    &&& forall|i: int|
        0 <= i < cmds.len() && pass_at(cmds, i) is Some ==> #[trigger] painted(steps, i)
}

/// Appends the steps of one layer.
fn plan_pass(commands: &Vec<DrawCommand>, pass: RasterPass, steps: &mut Vec<PaintStep>)
    requires
        forall|k: int| 0 <= k < old(steps).len() ==> step_of(commands@, #[trigger] old(steps)@[k]),
        forall|k: int, l: int|
            0 <= k < l < old(steps).len() ==> before(
                #[trigger] old(steps)@[k],
                #[trigger] old(steps)@[l],
            ),
        forall|k: int|
            0 <= k < old(steps).len() ==> (#[trigger] old(steps)@[k]).pass.rank() < pass.rank(),
    ensures
        old(steps)@.is_prefix_of(final(steps)@),
        forall|k: int|
            0 <= k < final(steps).len() ==> step_of(commands@, #[trigger] final(steps)@[k]),
        forall|k: int, l: int|
            0 <= k < l < final(steps).len() ==> before(
                #[trigger] final(steps)@[k],
                #[trigger] final(steps)@[l],
            ),
        forall|k: int|
            0 <= k < final(steps).len() ==> (#[trigger] final(steps)@[k]).pass.rank()
                <= pass.rank(),
        forall|i: int|
            0 <= i < commands.len() && pass_at(commands@, i) == Some(pass) ==> #[trigger] painted(
                final(steps)@,
                i,
            ),
{
    let ghost start = steps@;
    let mut bracket: Option<usize> = None;
    let mut floating = false;
    let mut i: usize = 0;
    while i < commands.len()
        invariant
            i <= commands.len(),
            bracket == bracket_at(commands@, i as int),
            floating == floating_at(commands@, i as int),
            start.is_prefix_of(steps@),
            forall|k: int| 0 <= k < steps.len() ==> step_of(commands@, #[trigger] steps@[k]),
            forall|k: int, l: int|
                0 <= k < l < steps.len() ==> before(#[trigger] steps@[k], #[trigger] steps@[l]),
            forall|k: int|
                0 <= k < steps.len() ==> ((#[trigger] steps@[k]).pass.rank() < pass.rank() || (
                steps@[k].pass == pass && steps@[k].command < i)),
            forall|j: int|
                0 <= j < i && pass_at(commands@, j) == Some(pass) ==> #[trigger] painted(steps@, j),
        decreases commands.len() - i,
    {
        let ghost before_steps = steps@;
        let own = raster_pass(&commands[i]);
        let effective = match own {
            Some(p) => if floating {
                Some(RasterPass::Float)
            } else {
                Some(p)
            },
            None => None,
        };
        if let Some(p) = effective {
            if p == pass {
                steps.push(PaintStep { pass, command: i, bracket });
                assert(steps@[steps.len() - 1].command == i);
            }
        }
        assert forall|j: int|
            0 <= j < i + 1 && pass_at(commands@, j) == Some(pass) implies #[trigger] painted(
            steps@,
            j,
        ) by {
            if j < i {
                assert(painted(before_steps, j));
                let k = choose|k: int|
                    0 <= k < before_steps.len() && (#[trigger] before_steps[k]).command == j;
                assert(steps@[k].command == j);
            }
        }
        match &commands[i] {
            DrawCommand::Transform(TransformMark::Begin(_)) => {
                bracket = Some(i);
            },
            DrawCommand::Transform(TransformMark::End) => {
                bracket = None;
            },
            DrawCommand::Float(FloatMark::Begin) => {
                floating = true;
            },
            DrawCommand::Float(FloatMark::End) => {
                floating = false;
            },
            _ => {},
        }
        i += 1;
    }
}

proof fn lemma_painted_prefix(a: Seq<PaintStep>, b: Seq<PaintStep>, i: int)
    requires
        a.is_prefix_of(b),
        painted(a, i),
    ensures
        painted(b, i),
{
    let k = choose|k: int| 0 <= k < a.len() && (#[trigger] a[k]).command == i;
    assert(b[k].command == i);
}

/// The painting order of a page.
pub fn paint_plan(commands: &Vec<DrawCommand>) -> (steps: Vec<PaintStep>)
    ensures
        is_paint_plan(commands@, steps@),
{
    let mut steps: Vec<PaintStep> = Vec::new();
    plan_pass(commands, RasterPass::Shape, &mut steps);
    let ghost s0 = steps@;
    plan_pass(commands, RasterPass::Shading, &mut steps);
    let ghost s1 = steps@;
    plan_pass(commands, RasterPass::Media, &mut steps);
    let ghost s2 = steps@;
    plan_pass(commands, RasterPass::Ink, &mut steps);
    let ghost s3 = steps@;
    plan_pass(commands, RasterPass::Float, &mut steps);
    proof {
        assert(s0.is_prefix_of(steps@));
        assert(s1.is_prefix_of(steps@));
        assert(s2.is_prefix_of(steps@));
        assert forall|i: int|
            0 <= i < commands.len() && pass_at(commands@, i) is Some implies #[trigger] painted(
            steps@,
            i,
        ) by {
            match pass_at(commands@, i)->0 {
                RasterPass::Shape => lemma_painted_prefix(s0, steps@, i),
                RasterPass::Shading => lemma_painted_prefix(s1, steps@, i),
                RasterPass::Media => lemma_painted_prefix(s2, steps@, i),
                RasterPass::Ink => lemma_painted_prefix(s3, steps@, i),
                RasterPass::Float => {},
            }
        }
    }
    steps
}

/// Every command that paints is painted exactly once, and a command that does
/// not paint never is.
pub proof fn each_command_paints_once(cmds: Seq<DrawCommand>, steps: Seq<PaintStep>, i: int)
    requires
        is_paint_plan(cmds, steps),
        0 <= i < cmds.len(),
    ensures
        painted(steps, i) <==> native_pass(cmds[i]) is Some,
        forall|k: int, l: int|
            0 <= k < steps.len() && 0 <= l < steps.len() && (#[trigger] steps[k]).command == i && (
            #[trigger] steps[l]).command == i ==> k == l,
{
    if painted(steps, i) {
        let k = choose|k: int| 0 <= k < steps.len() && (#[trigger] steps[k]).command == i;
        assert(step_of(cmds, steps[k]));
    }
    assert forall|k: int, l: int|
        0 <= k < steps.len() && 0 <= l < steps.len() && (#[trigger] steps[k]).command == i && (
        #[trigger] steps[l]).command == i implies k == l by {
        assert(step_of(cmds, steps[k]) && step_of(cmds, steps[l]));
        if k < l {
            assert(before(steps[k], steps[l]));
        }
        if l < k {
            assert(before(steps[l], steps[k]));
        }
    }
}

/// Of two painted commands, the one in the lower layer comes first, wherever
/// the two stand in the list: an image in the flow never hides ink, and a
/// floating one always does.
pub proof fn lower_layer_paints_first(
    cmds: Seq<DrawCommand>,
    steps: Seq<PaintStep>,
    k: int,
    l: int,
)
    requires
        is_paint_plan(cmds, steps),
        0 <= k < steps.len(),
        0 <= l < steps.len(),
        steps[k].pass.rank() < steps[l].pass.rank() || (steps[k].pass == steps[l].pass
            && steps[k].command < steps[l].command),
    ensures
        k < l,
{
    if l < k {
        assert(before(steps[l], steps[k]));
    }
}

/// There is only one painting order.
pub proof fn paint_plan_is_unique(cmds: Seq<DrawCommand>, a: Seq<PaintStep>, b: Seq<PaintStep>)
    requires
        is_paint_plan(cmds, a),
        is_paint_plan(cmds, b),
    ensures
        a == b,
{
    assert forall|k: int| 0 <= k < a.len() && 0 <= k < b.len() implies a[k] == b[k] by {
        lemma_plans_agree(cmds, a, b, k);
    }
    lemma_no_extra_step(cmds, a, b);
    lemma_no_extra_step(cmds, b, a);
    assert(a =~= b);
}

proof fn lemma_step_in_other(cmds: Seq<DrawCommand>, a: Seq<PaintStep>, b: Seq<PaintStep>, k: int)
    -> (l: int)
    requires
        is_paint_plan(cmds, a),
        is_paint_plan(cmds, b),
        0 <= k < a.len(),
    ensures
        0 <= l < b.len(),
        b[l] == a[k],
{
    assert(step_of(cmds, a[k]));
    assert(painted(b, a[k].command as int));
    let l = choose|l: int| 0 <= l < b.len() && (#[trigger] b[l]).command == a[k].command;
    assert(step_of(cmds, b[l]));
    l
}

proof fn lemma_plans_agree(cmds: Seq<DrawCommand>, a: Seq<PaintStep>, b: Seq<PaintStep>, k: int)
    requires
        is_paint_plan(cmds, a),
        is_paint_plan(cmds, b),
        0 <= k < a.len(),
        k < b.len(),
    ensures
        a[k] == b[k],
    decreases k,
{
    assert forall|j: int| 0 <= j < k implies a[j] == b[j] by {
        lemma_plans_agree(cmds, a, b, j);
    }
    let l = lemma_step_in_other(cmds, a, b, k);
    let m = lemma_step_in_other(cmds, b, a, k);
    assert(l >= k) by {
        if l < k {
            assert(a[l] == b[l]);
            assert(before(a[l], a[k]));
        }
    }
    assert(m >= k) by {
        if m < k {
            assert(a[m] == b[m]);
            assert(before(b[m], b[k]));
        }
    }
    if l > k && m > k {
        assert(before(b[k], b[l]));
        assert(before(a[k], a[m]));
    }
}

proof fn lemma_no_extra_step(cmds: Seq<DrawCommand>, a: Seq<PaintStep>, b: Seq<PaintStep>)
    requires
        is_paint_plan(cmds, a),
        is_paint_plan(cmds, b),
    ensures
        b.len() <= a.len(),
{
    if a.len() < b.len() {
        let k = a.len() as int;
        let l = lemma_step_in_other(cmds, b, a, k);
        lemma_plans_agree(cmds, a, b, l);
        assert(before(b[l], b[k]));
    }
}

/// Whether two lists of commands paint the same picture by their painting orders:
/// the same commands in the same layers, one after the other, each inside the
/// same placement.
pub open spec fn paint_alike(
    c: Seq<DrawCommand>,
    a: Seq<PaintStep>,
    d: Seq<DrawCommand>,
    b: Seq<PaintStep>,
) -> bool {
    &&& a.len() == b.len()
    &&& forall|k: int|
        #![trigger a[k]]
        #![trigger b[k]]
        0 <= k < a.len() ==> {
            &&& a[k].pass == b[k].pass
            &&& c[a[k].command as int] == d[b[k].command as int]
            &&& match (a[k].bracket, b[k].bracket) {
                (Some(x), Some(y)) => c[x as int] == d[y as int],
                (None, None) => true,
                _ => false,
            }
        }
}

/// A list whose painting commands are those of another under other indices, and
/// within each layer in the same order, is painted in the order of the other.
proof fn lemma_same_order(
    c: Seq<DrawCommand>,
    a: Seq<PaintStep>,
    d: Seq<DrawCommand>,
    b: Seq<PaintStep>,
    there: spec_fn(int) -> int,
    back: spec_fn(int) -> int,
)
    requires
        is_paint_plan(c, a),
        is_paint_plan(d, b),
        d.len() <= usize::MAX,
        forall|i: int|
            0 <= i < c.len() && #[trigger] pass_at(c, i) is Some ==> 0 <= there(i) < d.len()
                && pass_at(d, there(i)) == pass_at(c, i),
        forall|j: int|
            0 <= j < d.len() && #[trigger] pass_at(d, j) is Some ==> 0 <= back(j) < c.len()
                && pass_at(c, back(j)) is Some && there(back(j)) == j,
        forall|i: int, k: int|
            0 <= i < k < c.len() && pass_at(c, i) == pass_at(c, k) && #[trigger] pass_at(c, i)
                is Some && #[trigger] pass_at(c, k) is Some ==> there(i) < there(k),
    ensures
        a.len() == b.len(),
        forall|k: int|
            0 <= k < a.len() ==> (#[trigger] b[k]).pass == a[k].pass && b[k].command == there(
                a[k].command as int,
            ) && b[k].bracket == bracket_at(d, there(a[k].command as int)),
{
    let m = Seq::new(
        a.len(),
        |k: int|
            PaintStep {
                pass: a[k].pass,
                command: there(a[k].command as int) as usize,
                bracket: bracket_at(d, there(a[k].command as int)),
            },
    );
    assert forall|k: int| 0 <= k < m.len() implies step_of(d, #[trigger] m[k]) by {
        assert(step_of(c, a[k]));
    }
    assert forall|k: int, l: int| 0 <= k < l < m.len() implies before(
        #[trigger] m[k],
        #[trigger] m[l],
    ) by {
        assert(before(a[k], a[l]));
        assert(step_of(c, a[k]));
        assert(step_of(c, a[l]));
        assert(step_of(d, m[k]));
        assert(step_of(d, m[l]));
    }
    assert forall|j: int| 0 <= j < d.len() && pass_at(d, j) is Some implies #[trigger] painted(
        m,
        j,
    ) by {
        let i = back(j);
        assert(pass_at(c, i) is Some);
        assert(painted(a, i));
        let k = choose|k: int| 0 <= k < a.len() && (#[trigger] a[k]).command == i;
        assert(m[k].command == j);
    }
    paint_plan_is_unique(d, m, b);
}

/// The bracket that is open at a command begins before it.
proof fn lemma_bracket_begins(cmds: Seq<DrawCommand>, i: int)
    requires
        0 <= i <= cmds.len() <= usize::MAX,
    ensures
        bracket_at(cmds, i) matches Some(x) ==> x < i && cmds[x as int] is Transform,
    decreases i,
{
    if i > 0 {
        lemma_bracket_begins(cmds, i - 1);
    }
}

/// Where two neighbours that are no marks change places, the same brackets and
/// floating spans are open everywhere.
proof fn lemma_swap_keeps_marks(c: Seq<DrawCommand>, d: Seq<DrawCommand>, i: int, j: int)
    requires
        0 <= i,
        i + 1 < c.len(),
        d == c.update(i, c[i + 1]).update(i + 1, c[i]),
        native_pass(c[i]) is Some,
        native_pass(c[i + 1]) is Some,
        0 <= j <= c.len(),
    ensures
        bracket_at(d, j) == bracket_at(c, j),
        floating_at(d, j) == floating_at(c, j),
    decreases j,
{
    if j > 0 {
        lemma_swap_keeps_marks(c, d, i, j - 1);
    }
}

/// Two neighbours that paint in different layers may change places in the list:
/// the picture is painted in the same order. (Inside a floating span everything
/// paints in one layer, so they stand outside of it.)
pub proof fn neighbours_of_other_layers_may_swap(
    c: Seq<DrawCommand>,
    a: Seq<PaintStep>,
    d: Seq<DrawCommand>,
    b: Seq<PaintStep>,
    i: int,
)
    requires
        c.len() <= usize::MAX,
        is_paint_plan(c, a),
        is_paint_plan(d, b),
        0 <= i,
        i + 1 < c.len(),
        pass_at(c, i) is Some,
        pass_at(c, i + 1) is Some,
        pass_at(c, i) != pass_at(c, i + 1),
        d == c.update(i, c[i + 1]).update(i + 1, c[i]),
    ensures
        paint_alike(c, a, d, b),
{
    let there = |j: int|
        if j == i {
            i + 1
        } else if j == i + 1 {
            i
        } else {
            j
        };
    lemma_swap_keeps_marks(c, d, i, i);
    lemma_swap_keeps_marks(c, d, i, i + 1);
    assert(floating_at(c, i + 1) == floating_at(c, i));
    assert(bracket_at(c, i + 1) == bracket_at(c, i));
    assert forall|j: int| 0 <= j < c.len() implies #[trigger] pass_at(d, there(j)) == pass_at(
        c,
        j,
    ) && bracket_at(d, there(j)) == bracket_at(c, j) by {
        lemma_swap_keeps_marks(c, d, i, j);
    }
    assert forall|j: int| 0 <= j < d.len() && #[trigger] pass_at(d, j) is Some implies 0 <= there(j)
        < c.len() && pass_at(c, there(j)) is Some && there(there(j)) == j by {
        assert(pass_at(d, there(there(j))) == pass_at(c, there(j)));
    }
    lemma_same_order(c, a, d, b, there, there);
    assert forall|k: int| 0 <= k < a.len() implies {
        &&& (#[trigger] a[k]).pass == b[k].pass
        &&& c[a[k].command as int] == d[b[k].command as int]
        &&& match (a[k].bracket, b[k].bracket) {
            (Some(x), Some(y)) => c[x as int] == d[y as int],
            (None, None) => true,
            _ => false,
        }
    } by {
        let at = a[k].command as int;
        assert(step_of(c, a[k]));
        assert(b[k].command == there(at));
        assert(pass_at(d, there(at)) == pass_at(c, at));
        lemma_bracket_begins(c, at);
    }
    assert(paint_alike(c, a, d, b));
}

/// Where a command that is no mark is put in, the same brackets and floating
/// spans are open at all others, under the indices that they then have.
proof fn lemma_insert_keeps_marks(
    c: Seq<DrawCommand>,
    d: Seq<DrawCommand>,
    i: int,
    cmd: DrawCommand,
    j: int,
)
    requires
        c.len() < usize::MAX,
        0 <= i <= c.len(),
        d == c.insert(i, cmd),
        !(cmd is Transform) && !(cmd is Float),
        0 <= j <= c.len(),
    ensures
        j <= i ==> bracket_at(d, j) == bracket_at(c, j) && floating_at(d, j) == floating_at(c, j),
        j >= i ==> floating_at(d, j + 1) == floating_at(c, j) && match (
            bracket_at(c, j),
            bracket_at(d, j + 1),
        ) {
            (Some(x), Some(y)) => y == if x < i {
                x as int
            } else {
                x + 1
            },
            (None, None) => true,
            _ => false,
        },
    decreases j,
{
    if j > 0 {
        lemma_insert_keeps_marks(c, d, i, cmd, j - 1);
    }
    if j <= i {
        lemma_bracket_begins(c, j);
    }
    if j == i {
        assert(d[i] == cmd);
        assert(bracket_at(d, j + 1) == bracket_at(d, j));
        assert(floating_at(d, j + 1) == floating_at(d, j));
    } else if j > i {
        assert(d[j] == c[j - 1]);
        assert(bracket_at(d, j + 1) == match c[j - 1] {
            DrawCommand::Transform(TransformMark::Begin(_)) => Some(j as usize),
            DrawCommand::Transform(TransformMark::End) => None,
            _ => bracket_at(d, j),
        });
        assert(floating_at(d, j + 1) == match c[j - 1] {
            DrawCommand::Float(FloatMark::Begin) => true,
            DrawCommand::Float(FloatMark::End) => false,
            _ => floating_at(d, j),
        });
    }
}

/// What paints nothing and marks nothing, such as links, destinations and outline
/// entries, may stand anywhere in the list or be left out: the picture is painted
/// in the same order.
pub proof fn what_paints_nothing_changes_nothing(
    c: Seq<DrawCommand>,
    a: Seq<PaintStep>,
    d: Seq<DrawCommand>,
    b: Seq<PaintStep>,
    i: int,
    cmd: DrawCommand,
)
    requires
        c.len() < usize::MAX,
        is_paint_plan(c, a),
        is_paint_plan(d, b),
        0 <= i <= c.len(),
        d == c.insert(i, cmd),
        cmd is LinkAnnotation || cmd is InternalLink || cmd is NamedDestination || cmd is Outline,
    ensures
        paint_alike(c, a, d, b),
{
    let there = |j: int|
        if j < i {
            j
        } else {
            j + 1
        };
    let back = |j: int|
        if j < i {
            j
        } else {
            j - 1
        };
    assert forall|j: int| 0 <= j < c.len() implies #[trigger] pass_at(d, there(j)) == pass_at(
        c,
        j,
    ) by {
        lemma_insert_keeps_marks(c, d, i, cmd, j);
    }
    assert forall|j: int| 0 <= j < d.len() && #[trigger] pass_at(d, j) is Some implies 0 <= back(j)
        < c.len() && pass_at(c, back(j)) is Some && there(back(j)) == j by {
        assert(d[i] == cmd);
        assert(j != i);
        assert(pass_at(d, there(back(j))) == pass_at(c, back(j)));
    }
    lemma_same_order(c, a, d, b, there, back);
    assert forall|k: int| 0 <= k < a.len() implies {
        &&& (#[trigger] a[k]).pass == b[k].pass
        &&& c[a[k].command as int] == d[b[k].command as int]
        &&& match (a[k].bracket, b[k].bracket) {
            (Some(x), Some(y)) => c[x as int] == d[y as int],
            (None, None) => true,
            _ => false,
        }
    } by {
        let at = a[k].command as int;
        assert(step_of(c, a[k]));
        assert(b[k].command == there(at));
        lemma_insert_keeps_marks(c, d, i, cmd, at);
        lemma_bracket_begins(c, at);
    }
    assert(paint_alike(c, a, d, b));
}

/// How a page is rasterized: the size of the raster and what is painted on it.
#[derive(Debug)]
pub struct RasterPlan {
    pub frame: RasterFrame,
    pub steps: Vec<PaintStep>,
}

/// How `page` is rasterized when it is asked for at `scale` trillionths of a
/// dot per inch.
pub fn raster_plan(page: &LayoutedPage, scale: u64) -> (r: RasterPlan)
    ensures
        is_paint_plan(page.commands@, r.steps@),
        r.frame.clamped == !within_ceiling(
            page.page_size.width,
            page.page_size.height,
            scale as int,
        ),
        is_effective(
            page.page_size.width,
            page.page_size.height,
            scale as int,
            r.frame.scale as int,
        ),
        r.frame.width == pixels(page.page_size.width, r.frame.scale, r.frame.clamped),
        r.frame.height == pixels(page.page_size.height, r.frame.scale, r.frame.clamped),
{
    RasterPlan { frame: raster_frame(page.page_size, scale), steps: paint_plan(&page.commands) }
}

// ── Placement ──────────────────────────────────────────────────────────

/// The map from shape-local coordinates onto the page. The linear part is in
/// multiples of `2^-30`; the shift is in multiples of `2^-31` EMU.
#[derive(Clone, Copy, PartialEq, Eq, Structural, Debug)]
pub struct Placement {
    pub sx: i64,
    pub kx: i64,
    pub ky: i64,
    pub sy: i64,
    pub tx: i128,
    pub ty: i128,
}

impl Placement {
    /// Where the map takes the x-coordinate of `(x, y)`, in `2^-31` EMU.
    pub open spec fn image_x(self, x: int, y: int) -> int {
        2 * (self.sx * x + self.kx * y) + self.tx
    }

    /// Where the map takes the y-coordinate of `(x, y)`, in `2^-31` EMU.
    pub open spec fn image_y(self, x: int, y: int) -> int {
        2 * (self.ky * x + self.sy * y) + self.ty
    }
}

/// `v`, or its opposite under a mirror.
pub open spec fn mirrored(v: int, flip: bool) -> int {
    if flip {
        -v
    } else {
        v
    }
}

/// The sine and cosine that a turn by `t.rotation` uses: those of `d`, or none
/// at all where there is no turn.
pub open spec fn turn(t: ShapeTransform, d: Direction) -> (int, int) {
    if t.rotation.units == 0 {
        (0, DIRECTION_ONE as int)
    } else {
        (d.sin as int, d.cos as int)
    }
}

/// Whether `p` maps shape-local coordinates as `t` says: mirror about the
/// shape's centre, turn about it, then land at the origin.
pub open spec fn places(p: Placement, t: ShapeTransform, d: Direction) -> bool {
    let (sin, cos) = turn(t, d);
    let w = t.extent.width.emu as int;
    let h = t.extent.height.emu as int;
    &&& p.sx == mirrored(cos, t.flip_h)
    &&& p.kx == -mirrored(sin, t.flip_v)
    &&& p.ky == mirrored(sin, t.flip_h)
    &&& p.sy == mirrored(cos, t.flip_v)
    &&& p.tx == 1073741824 * (2 * t.origin.x.emu + w) - (p.sx * w + p.kx * h)
    &&& p.ty == 1073741824 * (2 * t.origin.y.emu + h) - (p.ky * w + p.sy * h)
}

/// The map from shape-local coordinates onto the page that a bracket or a path
/// asks for. `d` is the direction of the shape's rotation.
pub fn place_transform(t: &ShapeTransform, d: Direction) -> (p: Placement)
    requires
        d.ok(),
    ensures
        places(p, *t, d),
{
    let sin: i64 = if t.rotation.units == 0 {
        0
    } else {
        d.sin
    };
    let cos: i64 = if t.rotation.units == 0 {
        DIRECTION_ONE
    } else {
        d.cos
    };
    let sx: i64 = if t.flip_h {
        -cos
    } else {
        cos
    };
    let kx: i64 = if t.flip_v {
        sin
    } else {
        -sin
    };
    let ky: i64 = if t.flip_h {
        -sin
    } else {
        sin
    };
    let sy: i64 = if t.flip_v {
        -cos
    } else {
        cos
    };
    let w: i64 = t.extent.width.emu;
    let h: i64 = t.extent.height.emu;
    let x2: i128 = 2 * (t.origin.x.emu as i128) + w as i128;
    let y2: i128 = 2 * (t.origin.y.emu as i128) + h as i128;
    Placement {
        sx,
        kx,
        ky,
        sy,
        tx: 1073741824 * x2 - (units::scaled(sx, w as i128) + units::scaled(kx, h as i128)),
        ty: 1073741824 * y2 - (units::scaled(ky, w as i128) + units::scaled(sy, h as i128)),
    }
}

/// Turning and mirroring happen about the shape's centre: whatever the turn,
/// the centre of the shape's box lands at the centre of the box at `origin`.
pub proof fn placement_keeps_centre(p: Placement, t: ShapeTransform, d: Direction)
    requires
        places(p, t, d),
    ensures
        p.image_x(t.extent.width.emu as int, t.extent.height.emu as int) + p.tx == 2147483648
            * (2 * t.origin.x.emu + t.extent.width.emu),
        p.image_y(t.extent.width.emu as int, t.extent.height.emu as int) + p.ty == 2147483648
            * (2 * t.origin.y.emu + t.extent.height.emu),
{
}

/// Without turn or mirror a shape is only moved: a bracketed command at the
/// local origin lands at the bracket's origin.
pub proof fn plain_placement_moves(p: Placement, t: ShapeTransform, d: Direction, x: int, y: int)
    requires
        places(p, t, d),
        t.rotation.units == 0,
        !t.flip_h,
        !t.flip_v,
    ensures
        p.image_x(x, y) == 2147483648 * (t.origin.x.emu + x),
        p.image_y(x, y) == 2147483648 * (t.origin.y.emu + y),
{
    let (w, h) = (t.extent.width.emu as int, t.extent.height.emu as int);
    lemma_one_times(p.sx as int, x);
    lemma_one_times(p.sx as int, w);
    lemma_one_times(p.sy as int, y);
    lemma_one_times(p.sy as int, h);
    lemma_none_times(p.kx as int, y);
    lemma_none_times(p.kx as int, h);
    lemma_none_times(p.ky as int, x);
    lemma_none_times(p.ky as int, w);
}

proof fn lemma_none_times(a: int, x: int)
    requires
        a == 0,
    ensures
        a * x == 0,
{
}

proof fn lemma_one_times(a: int, x: int)
    by (nonlinear_arith)
    requires
        a == 1073741824 || a == -1073741824,
    ensures
        a == 1073741824 ==> a * x == 1073741824 * x,
        a == -1073741824 ==> a * x == -1073741824 * x,
{
}

/// A quarter turn carries the top edge of a square shape to its right edge.
pub proof fn quarter_turn_carries_top_to_right(p: Placement, t: ShapeTransform, x: int)
    requires
        places(p, t, (Direction { sin: DIRECTION_ONE, cos: 0 })),
        t.rotation.units != 0,
        !t.flip_h,
        !t.flip_v,
        t.extent.width == t.extent.height,
    ensures
        p.image_x(x, 0) == 2147483648 * (t.origin.x.emu + t.extent.width.emu),
        p.image_y(x, 0) == 2147483648 * (t.origin.y.emu + x),
{
    let (w, h) = (t.extent.width.emu as int, t.extent.height.emu as int);
    let (sx, kx, ky, sy) = (p.sx as int, p.kx as int, p.ky as int, p.sy as int);
    let (ox, oy) = (t.origin.x.emu as int, t.origin.y.emu as int);
    assert(p.tx == 1073741824 * (2 * ox + w) - (sx * w + kx * h));
    assert(p.ty == 1073741824 * (2 * oy + h) - (ky * w + sy * h));
    assert(2 * (sx * x + kx * 0) + (1073741824 * (2 * ox + w) - (sx * w + kx * h)) == 2147483648 * (
    ox + w)) by (nonlinear_arith)
        requires
            sx == 0,
            kx == -1073741824,
            h == w,
    ;
    assert(2 * (ky * x + sy * 0) + (1073741824 * (2 * oy + h) - (ky * w + sy * h)) == 2147483648 * (
    oy + x)) by (nonlinear_arith)
        requires
            sy == 0,
            ky == 1073741824,
            h == w,
    ;
}

// ── Fills and strokes ──────────────────────────────────────────────────

/// A channel brought into 0 to 1000000.
pub open spec fn clamp_channel(v: int) -> int {
    if v < 0 {
        0
    } else if v > 1_000_000 {
        1_000_000
    } else {
        v
    }
}

/// A colour with every channel brought into range.
pub open spec fn clamp_color(c: Rgba) -> Rgba {
    Rgba {
        r: clamp_channel(c.r as int) as i32,
        g: clamp_channel(c.g as int) as i32,
        b: clamp_channel(c.b as int) as i32,
        a: clamp_channel(c.a as int) as i32,
    }
}

fn clamped_channel(v: i32) -> (r: i32)
    ensures
        r == clamp_channel(v as int),
{
    if v < 0 {
        0
    } else if v > 1_000_000 {
        1_000_000
    } else {
        v
    }
}

/// A colour with every channel brought into range.
pub fn rgba_color(c: Rgba) -> (r: Rgba)
    ensures
        r == clamp_color(c),
{
    Rgba {
        r: clamped_channel(c.r),
        g: clamped_channel(c.g),
        b: clamped_channel(c.b),
        a: clamped_channel(c.a),
    }
}

/// What a subpath's interior is painted with.
#[derive(Clone, Copy, PartialEq, Eq, Structural, Debug)]
pub enum FillChoice {
    /// Nothing is painted.
    Nothing,
    /// One colour, its channels in range.
    Solid(Rgba),
    /// The decoded image, stretched from its own size into the shape's box.
    Stretch { image_width: u32, image_height: u32, extent: PtSize },
}

/// One channel of a gradient's stops, summed.
pub open spec fn channel_sum(stops: Seq<GradientStopRgba>, channel: spec_fn(Rgba) -> int) -> int
    decreases stops.len(),
{
    if stops.len() == 0 {
        0
    } else {
        channel_sum(stops.drop_last(), channel) + channel(stops.last().color)
    }
}

/// The mean colour of a gradient's stops, each channel rounded down.
pub open spec fn mean_color(stops: Seq<GradientStopRgba>) -> Rgba {
    let n = stops.len() as int;
    Rgba {
        r: (channel_sum(stops, |c: Rgba| c.r as int) / n) as i32,
        g: (channel_sum(stops, |c: Rgba| c.g as int) / n) as i32,
        b: (channel_sum(stops, |c: Rgba| c.b as int) / n) as i32,
        a: (channel_sum(stops, |c: Rgba| c.a as int) / n) as i32,
    }
}

/// What an interior with this fill is painted with. A gradient is painted as
/// the mean of its stops, an image only when it was decoded, a pattern not at
/// all, and nothing that is wholly transparent.
pub open spec fn fill_choice(
    fill: ResolvedFill,
    blip: Option<(u32, u32)>,
    extent: PtSize,
) -> FillChoice {
    match fill {
        ResolvedFill::NoFill => FillChoice::Nothing,
        ResolvedFill::Solid(c) => if c.a > 0 {
            FillChoice::Solid(clamp_color(c))
        } else {
            FillChoice::Nothing
        },
        ResolvedFill::Gradient(g) => if g.stops@.len() > 0 && channel_sum(
            g.stops@,
            |c: Rgba| c.a as int,
        ) > 0 {
            FillChoice::Solid(clamp_color(mean_color(g.stops@)))
        } else {
            FillChoice::Nothing
        },
        ResolvedFill::Blip(_) => match blip {
            Some((w, h)) => if w > 0 && h > 0 && extent.width.emu > 0 && extent.height.emu > 0 {
                FillChoice::Stretch { image_width: w, image_height: h, extent }
            } else {
                FillChoice::Nothing
            },
            None => FillChoice::Nothing,
        },
        ResolvedFill::Pattern(_) => FillChoice::Nothing,
    }
}

/// The floor of `total / count`.
fn floor_div(total: i128, count: usize) -> (r: i128)
    requires
        count > 0,
        -0x8000_0000 * count <= total <= 0x7fff_ffff * count,
    ensures
        r == (total as int) / (count as int),
        -0x8000_0000 <= r <= 0x7fff_ffff,
{
    let n: i128 = count as i128;
    proof {
        assert(-0x8000_0000 <= (total as int) / (n as int) <= 0x7fff_ffff) by (nonlinear_arith)
            requires
                n > 0,
                -0x8000_0000 * n <= total <= 0x7fff_ffff * n,
        ;
    }
    if total >= 0 {
        total / n
    } else {
        let m: i128 = -total;
        let q: i128 = m / n;
        let rest: i128 = m % n;
        proof {
            vstd::arithmetic::div_mod::lemma_fundamental_div_mod(m as int, n as int);
            if rest == 0 {
                assert(total == (-q) * n + 0) by (nonlinear_arith)
                    requires
                        m == n * q + rest,
                        rest == 0,
                        total == -m,
                ;
                vstd::arithmetic::div_mod::lemma_fundamental_div_mod_converse(
                    total as int,
                    n as int,
                    -q,
                    0,
                );
            } else {
                assert(total == (-q - 1) * n + (n - rest)) by (nonlinear_arith)
                    requires
                        m == n * q + rest,
                        total == -m,
                ;
                vstd::arithmetic::div_mod::lemma_fundamental_div_mod_converse(
                    total as int,
                    n as int,
                    -q - 1,
                    n - rest,
                );
            }
        }
        if rest == 0 {
            -q
        } else {
            -q - 1
        }
    }
}

/// What an interior with this fill is painted with, given the size of the
/// fill's image where it was decoded.
pub fn fill_paint(fill: &ResolvedFill, blip: Option<(u32, u32)>, extent: PtSize) -> (r: FillChoice)
    ensures
        r == fill_choice(*fill, blip, extent),
{
    match fill {
        ResolvedFill::NoFill => FillChoice::Nothing,
        ResolvedFill::Solid(c) => if c.a > 0 {
            FillChoice::Solid(rgba_color(*c))
        } else {
            FillChoice::Nothing
        },
        ResolvedFill::Gradient(g) => {
            let n: usize = g.stops.len();
            if n == 0 {
                return FillChoice::Nothing;
            }
            let ghost fr = |c: Rgba| c.r as int;
            let ghost fg = |c: Rgba| c.g as int;
            let ghost fb = |c: Rgba| c.b as int;
            let ghost fa = |c: Rgba| c.a as int;
            let mut r: i128 = 0;
            let mut gr: i128 = 0;
            let mut b: i128 = 0;
            let mut a: i128 = 0;
            let mut i: usize = 0;
            while i < n
                invariant
                    i <= n,
                    n == g.stops.len(),
                    fr == (|c: Rgba| c.r as int),
                    fg == (|c: Rgba| c.g as int),
                    fb == (|c: Rgba| c.b as int),
                    fa == (|c: Rgba| c.a as int),
                    r == channel_sum(g.stops@.take(i as int), fr),
                    gr == channel_sum(g.stops@.take(i as int), fg),
                    b == channel_sum(g.stops@.take(i as int), fb),
                    a == channel_sum(g.stops@.take(i as int), fa),
                    -0x8000_0000 * i <= r <= 0x7fff_ffff * i,
                    -0x8000_0000 * i <= gr <= 0x7fff_ffff * i,
                    -0x8000_0000 * i <= b <= 0x7fff_ffff * i,
                    -0x8000_0000 * i <= a <= 0x7fff_ffff * i,
                decreases n - i,
            {
                assert(g.stops@.take(i + 1).drop_last() =~= g.stops@.take(i as int));
                let c = g.stops[i].color;
                r = r + c.r as i128;
                gr = gr + c.g as i128;
                b = b + c.b as i128;
                a = a + c.a as i128;
                i += 1;
            }
            assert(g.stops@.take(n as int) =~= g.stops@);
            if a > 0 {
                let mean = Rgba {
                    r: floor_div(r, n) as i32,
                    g: floor_div(gr, n) as i32,
                    b: floor_div(b, n) as i32,
                    a: floor_div(a, n) as i32,
                };
                FillChoice::Solid(rgba_color(mean))
            } else {
                FillChoice::Nothing
            }
        },
        ResolvedFill::Blip(_) => match blip {
            Some((w, h)) => if w > 0 && h > 0 && extent.width.emu > 0 && extent.height.emu > 0 {
                FillChoice::Stretch { image_width: w, image_height: h, extent }
            } else {
                FillChoice::Nothing
            },
            None => FillChoice::Nothing,
        },
        ResolvedFill::Pattern(_) => FillChoice::Nothing,
    }
}

/// Whether a subpath's interior is painted at all.
pub fn fills(sub: &SubPath) -> (r: bool)
    ensures
        r == (sub.fill_mode != PathFillMode::NoFill),
{
    match sub.fill_mode {
        PathFillMode::NoFill => false,
        _ => true,
    }
}

/// Whether a subpath's outline is drawn: it asks for one, and the stroke has
/// both colour and width.
pub fn strokes(sub: &SubPath, stroke: &Option<ResolvedStroke>) -> (r: bool)
    ensures
        r == (sub.stroked && (stroke matches Some(s) && s.color.a > 0 && s.width.emu > 0)),
{
    match stroke {
        Some(s) => sub.stroked && s.color.a > 0 && s.width.emu > 0,
        None => false,
    }
}

/// The lengths on and off of a dashed stroke, an even number of them: a
/// pattern of odd length is written out twice.
pub open spec fn dash_lengths(dash: ResolvedDashPattern) -> Option<Seq<Pt>> {
    match dash {
        ResolvedDashPattern::Solid => None,
        ResolvedDashPattern::Dashes(d) => Some(
            if d@.len() % 2 == 1 {
                d@ + d@
            } else {
                d@
            },
        ),
    }
}

/// The lengths on and off of a dashed stroke, an even number of them.
pub fn dash_array(dash: &ResolvedDashPattern) -> (r: Option<Vec<Pt>>)
    ensures
        match r {
            Some(v) => dash_lengths(*dash) == Some(v@) && v@.len() % 2 == 0,
            None => dash_lengths(*dash) is None,
        },
{
    match dash {
        ResolvedDashPattern::Solid => None,
        ResolvedDashPattern::Dashes(d) => {
            let mut v: Vec<Pt> = Vec::new();
            let mut i: usize = 0;
            while i < d.len()
                invariant
                    i <= d.len(),
                    v@ == d@.take(i as int),
                decreases d.len() - i,
            {
                v.push(d[i]);
                i += 1;
            }
            assert(v@ =~= d@);
            if v.len() % 2 == 1 {
                let mut j: usize = 0;
                while j < d.len()
                    invariant
                        j <= d.len(),
                        v@ == d@ + d@.take(j as int),
                    decreases d.len() - j,
                {
                    v.push(d[j]);
                    j += 1;
                }
                assert(v@ =~= d@ + d@);
            }
            Some(v)
        },
    }
}

/// The width that a rule is drawn with: a fifth of a point at the least.
pub fn rule_width(width: Pt) -> (r: Pt)
    ensures
        r.emu == (if width.emu < 2540 {
            2540
        } else {
            width.emu as int
        }),
{
    width.max(Pt { emu: 2540 })
}

// ── Outlines ───────────────────────────────────────────────────────────

/// Whether a verb leaves the pen at a known point by itself.
pub open spec fn sets_pen(v: PathVerb) -> bool {
    v is MoveTo || v is LineTo || v is QuadTo || v is CubicTo
}

/// Whether the pen stands somewhere before the `i`th verb.
pub open spec fn pen_down(verbs: Seq<PathVerb>, i: int) -> bool {
    exists|j: int| 0 <= j < i && sets_pen(#[trigger] verbs[j])
}

/// Whether the `i`th verb is drawn. An arc starts at the pen, so it needs one,
/// and an ellipse to run along.
pub open spec fn drawn(verbs: Seq<PathVerb>, i: int) -> bool {
    match verbs[i] {
        PathVerb::ArcTo { radii, .. } => pen_down(verbs, i) && radii.width.emu > 0
            && radii.height.emu > 0,
        _ => true,
    }
}

/// The verbs among the first `n` that are drawn.
pub open spec fn drawn_verbs(verbs: Seq<PathVerb>, n: int) -> Seq<PathVerb>
    decreases n,
{
    if n <= 0 {
        seq![]
    } else if drawn(verbs, n - 1) {
        drawn_verbs(verbs, n - 1).push(verbs[n - 1])
    } else {
        drawn_verbs(verbs, n - 1)
    }
}

/// The verbs of a subpath that are drawn, in order.
pub fn build_path(sub: &SubPath) -> (r: Vec<PathVerb>)
    ensures
        r@ == drawn_verbs(sub.verbs@, sub.verbs@.len() as int),
{
    let mut out: Vec<PathVerb> = Vec::new();
    let mut down = false;
    let mut i: usize = 0;
    while i < sub.verbs.len()
        invariant
            i <= sub.verbs.len(),
            out@ == drawn_verbs(sub.verbs@, i as int),
            down == pen_down(sub.verbs@, i as int),
        decreases sub.verbs.len() - i,
    {
        let verb = sub.verbs[i];
        let keep = match verb {
            PathVerb::ArcTo { radii, .. } => down && radii.width.emu > 0 && radii.height.emu > 0,
            _ => true,
        };
        if keep {
            out.push(verb);
        }
        proof {
            if down {
                let j = choose|j: int| 0 <= j < i && sets_pen(#[trigger] sub.verbs@[j]);
                assert(sets_pen(sub.verbs@[j]));
            }
            if sets_pen(sub.verbs@[i as int]) {
                assert(pen_down(sub.verbs@, i + 1));
            }
        }
        match verb {
            PathVerb::MoveTo(_) => {
                down = true;
            },
            PathVerb::LineTo(_) => {
                down = true;
            },
            PathVerb::QuadTo(_, _) => {
                down = true;
            },
            PathVerb::CubicTo(_, _, _) => {
                down = true;
            },
            _ => {},
        }
        i += 1;
    }
    out
}

/// How many straight pieces stand for an arc that swings by `swing`: the
/// fewest, but one at the least, none of which spans more than five degrees.
pub fn arc_pieces(swing: Angle) -> (r: u64)
    ensures
        r >= 1,
        swing.units <= r * 300_000,
        -swing.units <= r * 300_000,
        r > 1 ==> swing.units > (r - 1) * 300_000 || -swing.units > (r - 1) * 300_000,
{
    let magnitude: u64 = if swing.units >= 0 {
        swing.units as u64
    } else if swing.units == i64::MIN {
        0x8000_0000_0000_0000
    } else {
        (-swing.units) as u64
    };
    if magnitude <= 300_000 {
        1
    } else {
        (magnitude - 1) / 300_000 + 1
    }
}

/// Every arc that is drawn starts where an earlier drawn verb left the pen.
pub proof fn drawn_arcs_have_a_pen(verbs: Seq<PathVerb>, i: int)
    requires
        0 <= i < verbs.len(),
        verbs[i] is ArcTo,
        drawn(verbs, i),
    ensures
        exists|j: int| 0 <= j < i && drawn(verbs, j) && sets_pen(#[trigger] verbs[j]),
{
    let j = choose|j: int| 0 <= j < i && sets_pen(#[trigger] verbs[j]);
    assert(drawn(verbs, j));
}

}
