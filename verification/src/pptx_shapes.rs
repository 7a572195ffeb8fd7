//! Shapes on a slide: their outlines, the boxes their texts go into, and how a
//! box is placed on the slide.
use crate::draw_command::{PathFillMode, PathVerb, ShapeTransform, SubPath};
use crate::geometry::{PtOffset, PtRect, PtSize, Rect};
use crate::types::TextItem;
use crate::units;
use crate::units::{Angle, Direction, Pt, DIRECTION_ONE};
use vstd::prelude::*;

verus! {

/// Where a shape sits on its slide, with the transforms of the groups around
/// it already worked in.
#[derive(Clone, Copy, PartialEq, Eq, Structural, Debug)]
pub struct SlideRect {
    /// The shape's own box, before it is turned.
    pub rect: PtRect,
    /// The box that its outline is built in.
    pub bounding_box: PtRect,
    /// Clockwise.
    pub rotation: Angle,
    /// The direction of `rotation`.
    pub direction: Direction,
    pub flip_h: bool,
    pub flip_v: bool,
}

/// A length that a file declares in EMU.
pub fn emu_to_pt(emu: i64) -> (r: Pt)
    ensures
        r.emu == emu,
{
    Pt::from_emu(emu)
}

// ── Outlines ───────────────────────────────────────────────────────────

/// The outline of a shape, and where its text goes where it says so.
#[derive(Debug)]
pub struct ShapePath {
    pub paths: Vec<SubPath>,
    pub text_rect: Option<PtRect>,
}

/// What a shape looks like.
#[derive(Debug)]
pub enum ShapeGeometry {
    /// A plain rectangle.
    Rect,
    /// A rectangle whose corners are rounded by `adjust` hundred-thousandths
    /// of its shorter side.
    RoundRect { adjust: i64 },
    /// An outline that was built for the shape's own size.
    Built(ShapePath),
    /// A preset by a name that is not defined.
    Undefined(String),
}

/// The adjustment of a rounded rectangle that declares none.
pub const ROUND_RECT_ADJUST: i64 = 16667;

/// `part` hundred-thousandths of `v`, rounded down.
pub open spec fn hundred_thousandths(v: int, part: int) -> int {
    (v * part) / 100_000
}

/// The radius of a rounded rectangle's corners: half of the shorter side at
/// the most.
pub open spec fn corner_radius(extent: PtSize, adjust: i64) -> Pt {
    let a = if adjust < 0 {
        0
    } else if adjust > 50_000 {
        50_000
    } else {
        adjust as int
    };
    units::pt(hundred_thousandths(extent.width.spec_min(extent.height).emu as int, a))
}

/// How far a rounded rectangle's text box is inset: as far as its corner arcs
/// reach in at 45 degrees.
pub open spec fn corner_inset(extent: PtSize, adjust: i64) -> Pt {
    units::pt(hundred_thousandths(corner_radius(extent, adjust).emu as int, 29_289))
}

fn part_of(v: Pt, part: i64) -> (r: Pt)
    requires
        v.emu >= 0,
        0 <= part <= 100_000,
    ensures
        r == units::pt(hundred_thousandths(v.emu as int, part as int)),
        0 <= r.emu <= v.emu,
{
    assert(0 <= v.emu * part <= 0x7fff_ffff_ffff_ffff * 100_000) by (nonlinear_arith)
        requires
            0 <= v.emu <= 0x7fff_ffff_ffff_ffff,
            0 <= part <= 100_000,
    ;
    let p: i128 = v.emu as i128 * part as i128;
    assert((v.emu * part) / 100_000 <= v.emu) by (nonlinear_arith)
        requires
            v.emu >= 0,
            0 <= part <= 100_000,
    ;
    Pt { emu: units::saturate(p / 100_000) }
}

fn radius_of(extent: PtSize, adjust: i64) -> (r: Pt)
    requires
        extent.width.emu >= 0,
        extent.height.emu >= 0,
    ensures
        r == corner_radius(extent, adjust),
        0 <= r.emu,
{
    let a: i64 = if adjust < 0 {
        0
    } else if adjust > 50_000 {
        50_000
    } else {
        adjust
    };
    part_of(extent.width.min(extent.height), a)
}

/// Where the text of a shape of this look goes, in the shape's own
/// coordinates; `None` where the look names no such box.
pub open spec fn text_box(geometry: ShapeGeometry, extent: PtSize) -> Option<PtRect> {
    match geometry {
        ShapeGeometry::Rect => if has_extent(extent) {
            Some(whole_box(extent))
        } else {
            None
        },
        ShapeGeometry::RoundRect { adjust } => if has_extent(extent) {
            let inset = corner_inset(extent, adjust);
            Some(
                PtRect {
                    origin: PtOffset { x: inset, y: inset },
                    size: PtSize {
                        width: extent.width.spec_minus(inset).spec_minus(inset),
                        height: extent.height.spec_minus(inset).spec_minus(inset),
                    },
                },
            )
        } else {
            None
        },
        ShapeGeometry::Built(p) => p.text_rect,
        ShapeGeometry::Undefined(_) => None,
    }
}

/// Whether a box has both a width and a height.
pub open spec fn has_extent(extent: PtSize) -> bool {
    extent.width.emu > 0 && extent.height.emu > 0
}

/// The whole of a box, in its own coordinates.
pub open spec fn whole_box(extent: PtSize) -> PtRect {
    PtRect { origin: PtOffset { x: Pt::spec_zero(), y: Pt::spec_zero() }, size: extent }
}

/// Where the text of a shape of this look goes.
fn text_rect_of(geometry: &ShapeGeometry, extent: PtSize) -> (r: Option<PtRect>)
    ensures
        r == text_box(*geometry, extent),
{
    let flat = extent.width.emu <= 0 || extent.height.emu <= 0;
    match geometry {
        ShapeGeometry::Rect => if flat {
            None
        } else {
            Some(PtRect::from_xywh(Pt::zero(), Pt::zero(), extent.width, extent.height))
        },
        ShapeGeometry::RoundRect { adjust } => {
            if flat {
                return None;
            }
            let inset = part_of(radius_of(extent, *adjust), 29_289);
            Some(
                PtRect::from_xywh(
                    inset,
                    inset,
                    extent.width.minus(inset).minus(inset),
                    extent.height.minus(inset).minus(inset),
                ),
            )
        },
        ShapeGeometry::Built(p) => p.text_rect,
        ShapeGeometry::Undefined(_) => None,
    }
}

/// The steps of a rectangle's outline.
pub open spec fn rect_verbs(extent: PtSize) -> Seq<PathVerb> {
    let (z, w, h) = (Pt::spec_zero(), extent.width, extent.height);
    seq![
        PathVerb::MoveTo(PtOffset { x: z, y: z }),
        PathVerb::LineTo(PtOffset { x: w, y: z }),
        PathVerb::LineTo(PtOffset { x: w, y: h }),
        PathVerb::LineTo(PtOffset { x: z, y: h }),
        PathVerb::Close,
    ]
}

/// The steps of a rounded rectangle's outline with corners of radius `r`.
pub open spec fn round_rect_verbs(extent: PtSize, r: Pt) -> Seq<PathVerb> {
    let (z, w, h) = (Pt::spec_zero(), extent.width, extent.height);
    let radii = PtSize { width: r, height: r };
    let quarter = Angle { units: 5_400_000 };
    seq![
        PathVerb::MoveTo(PtOffset { x: z, y: r }),
        PathVerb::ArcTo { radii, start_angle: Angle { units: 10_800_000 }, swing_angle: quarter },
        PathVerb::LineTo(PtOffset { x: w.spec_minus(r), y: z }),
        PathVerb::ArcTo { radii, start_angle: Angle { units: 16_200_000 }, swing_angle: quarter },
        PathVerb::LineTo(PtOffset { x: w, y: h.spec_minus(r) }),
        PathVerb::ArcTo { radii, start_angle: Angle { units: 0 }, swing_angle: quarter },
        PathVerb::LineTo(PtOffset { x: r, y: h }),
        PathVerb::ArcTo { radii, start_angle: Angle { units: 5_400_000 }, swing_angle: quarter },
        PathVerb::Close,
    ]
}

/// The single outline of a preset, filled and stroked.
pub open spec fn is_preset_outline(paths: Seq<SubPath>, verbs: Seq<PathVerb>) -> bool {
    &&& paths.len() == 1
    &&& paths[0].verbs@ == verbs
    &&& paths[0].fill_mode == PathFillMode::Norm
    &&& paths[0].stroked
}

/// Whether an outline can be built for a shape of this look and size. A rectangle
/// needs an extent; an outline that is built already, such as that of a level
/// line, does not.
pub open spec fn buildable(geometry: ShapeGeometry, extent: PtSize) -> bool {
    match geometry {
        ShapeGeometry::Rect => has_extent(extent),
        ShapeGeometry::RoundRect { .. } => has_extent(extent),
        ShapeGeometry::Built(_) => true,
        ShapeGeometry::Undefined(_) => false,
    }
}

/// Whether `paths` are the outlines of a shape of this look and size.
pub open spec fn is_outline(
    paths: Vec<SubPath>,
    geometry: ShapeGeometry,
    extent: PtSize,
) -> bool {
    match geometry {
        ShapeGeometry::Rect => is_preset_outline(paths@, rect_verbs(extent)),
        ShapeGeometry::RoundRect { adjust } => is_preset_outline(
            paths@,
            round_rect_verbs(extent, corner_radius(extent, adjust)),
        ),
        ShapeGeometry::Built(p) => paths == p.paths,
        ShapeGeometry::Undefined(_) => false,
    }
}

fn single_path(verbs: Vec<PathVerb>) -> (r: Vec<SubPath>)
    ensures
        is_preset_outline(r@, verbs@),
{
    let mut out: Vec<SubPath> = Vec::new();
    out.push(SubPath { verbs, fill_mode: PathFillMode::Norm, stroked: true });
    out
}

fn at(x: Pt, y: Pt) -> (r: PtOffset)
    ensures
        r == (PtOffset { x, y }),
{
    PtOffset { x, y }
}

/// The outline of a shape of this look and size; `None` where none can be
/// built. A look that is not defined is never stood in for by a box.
pub fn build_geometry(geometry: ShapeGeometry, extent: PtSize) -> (r: Option<ShapePath>)
    ensures
        match r {
            Some(p) => {
                &&& buildable(geometry, extent)
                &&& is_outline(p.paths, geometry, extent)
                &&& p.text_rect == text_box(geometry, extent)
            },
            None => !buildable(geometry, extent),
        },
{
    let flat = extent.width.emu <= 0 || extent.height.emu <= 0;
    let text_rect = text_rect_of(&geometry, extent);
    let (w, h) = (extent.width, extent.height);
    let z = Pt::zero();
    match geometry {
        ShapeGeometry::Rect => {
            if flat {
                return None;
            }
            let verbs = vec![
                PathVerb::MoveTo(at(z, z)),
                PathVerb::LineTo(at(w, z)),
                PathVerb::LineTo(at(w, h)),
                PathVerb::LineTo(at(z, h)),
                PathVerb::Close,
            ];
            assert(verbs@ =~= rect_verbs(extent));
            Some(ShapePath { paths: single_path(verbs), text_rect })
        },
        ShapeGeometry::RoundRect { adjust } => {
            if flat {
                return None;
            }
            let r = radius_of(extent, adjust);
            let radii = PtSize { width: r, height: r };
            let quarter = Angle { units: 5_400_000 };
            let verbs = vec![
                PathVerb::MoveTo(at(z, r)),
                PathVerb::ArcTo {
                    radii,
                    start_angle: Angle { units: 10_800_000 },
                    swing_angle: quarter,
                },
                PathVerb::LineTo(at(w.minus(r), z)),
                PathVerb::ArcTo {
                    radii,
                    start_angle: Angle { units: 16_200_000 },
                    swing_angle: quarter,
                },
                PathVerb::LineTo(at(w, h.minus(r))),
                PathVerb::ArcTo { radii, start_angle: Angle { units: 0 }, swing_angle: quarter },
                PathVerb::LineTo(at(r, h)),
                PathVerb::ArcTo {
                    radii,
                    start_angle: Angle { units: 5_400_000 },
                    swing_angle: quarter,
                },
                PathVerb::Close,
            ];
            assert(verbs@ =~= round_rect_verbs(extent, r));
            Some(ShapePath { paths: single_path(verbs), text_rect })
        },
        ShapeGeometry::Built(p) => Some(p),
        ShapeGeometry::Undefined(_) => None,
    }
}

/// The box that a shape's text is laid out in: the one its look names, or else
/// the whole of the shape's box. A box with no width or height is no place for
/// a text, so it is not taken either.
pub open spec fn body_box(geometry: Option<ShapeGeometry>, extent: PtSize) -> PtRect {
    match geometry {
        Some(g) => match text_box(g, extent) {
            Some(r) => if r.size.width.emu > 0 && r.size.height.emu > 0 {
                r
            } else {
                whole_box(extent)
            },
            None => whole_box(extent),
        },
        None => whole_box(extent),
    }
}

/// The box that a shape's text is laid out in.
pub fn body_rect(geometry: &Option<ShapeGeometry>, extent: PtSize) -> (r: PtRect)
    ensures
        r == body_box(*geometry, extent),
{
    let whole = PtRect::from_xywh(Pt::zero(), Pt::zero(), extent.width, extent.height);
    match geometry {
        Some(g) => match text_rect_of(g, extent) {
            Some(r) => if r.size.width.emu > 0 && r.size.height.emu > 0 {
                r
            } else {
                whole
            },
            None => whole,
        },
        None => whole,
    }
}

/// A text always has a box to go into: on a shape with an extent, the body box
/// has one too.
pub proof fn body_box_is_never_empty(geometry: Option<ShapeGeometry>, extent: PtSize)
    requires
        extent.width.emu > 0,
        extent.height.emu > 0,
    ensures
        body_box(geometry, extent).size.width.emu > 0,
        body_box(geometry, extent).size.height.emu > 0,
{
}

/// A rounded rectangle's text box lies inside the shape, with the same margin
/// on all sides.
pub proof fn round_rect_body_is_inset(extent: PtSize, adjust: i64)
    requires
        extent.width.emu > 0,
        extent.height.emu > 0,
    ensures
        ({
            let inset = corner_inset(extent, adjust).emu as int;
            let b = body_box(Some(ShapeGeometry::RoundRect { adjust }), extent);
            &&& 0 <= inset
            &&& 2 * inset <= extent.width.emu
            &&& 2 * inset <= extent.height.emu
            &&& 2 * inset < extent.width.emu && 2 * inset < extent.height.emu ==> {
                &&& b.origin.x.emu == inset
                &&& b.origin.y.emu == inset
                &&& b.size.width.emu == extent.width.emu - 2 * inset
                &&& b.size.height.emu == extent.height.emu - 2 * inset
            }
        }),
{
    let m = extent.width.spec_min(extent.height).emu as int;
    let a = if adjust < 0 {
        0
    } else if adjust > 50_000 {
        50_000
    } else {
        adjust as int
    };
    assert(0 <= (m * a) / 100_000 && 2 * ((m * a) / 100_000) <= m) by (nonlinear_arith)
        requires
            0 < m,
            0 <= a <= 50_000,
    ;
    let r = corner_radius(extent, adjust).emu as int;
    assert(r == (m * a) / 100_000);
    assert(0 <= (r * 29_289) / 100_000 <= r) by (nonlinear_arith)
        requires
            0 <= r,
    ;
}

// ── Frames ─────────────────────────────────────────────────────────────

/// The frame that boxes are placed against: where it sits on the slide, how
/// large it is, and how it is turned about its own centre. All boxes of a
/// frame turn with it, about the frame's centre and not about their own.
#[derive(Clone, Copy, PartialEq, Eq, Structural, Debug)]
pub struct Frame {
    pub origin: PtOffset,
    pub extent: PtSize,
    pub rotation: Angle,
    pub direction: Direction,
}

/// Where a frame's turn takes a point, in `2^-31` EMU from the frame's
/// origin. The point is given by its doubled coordinates, in which the centre
/// of the frame is its extent.
pub open spec fn turned_x(f: Frame, x2: int, y2: int) -> int {
    1073741824 * f.extent.width.emu + (f.direction.cos * (x2 - f.extent.width.emu)
        - f.direction.sin * (y2 - f.extent.height.emu))
}

/// The y-coordinate of where a frame's turn takes a point.
pub open spec fn turned_y(f: Frame, x2: int, y2: int) -> int {
    1073741824 * f.extent.height.emu + (f.direction.sin * (x2 - f.extent.width.emu)
        + f.direction.cos * (y2 - f.extent.height.emu))
}

impl Frame {
    /// The frame of a shape of this size, in contracts.
    pub open spec fn spec_new(slide_rect: SlideRect, extent: PtSize) -> Frame {
        Frame {
            origin: slide_rect.rect.origin,
            extent,
            rotation: slide_rect.rotation,
            direction: slide_rect.direction,
        }
    }

    /// The frame of a shape of this size.
    pub fn new(slide_rect: &SlideRect, extent: PtSize) -> (r: Frame)
        ensures
            r == Frame::spec_new(*slide_rect, extent),
    {
        Frame {
            origin: slide_rect.rect.origin,
            extent,
            rotation: slide_rect.rotation,
            direction: slide_rect.direction,
        }
    }

    /// Where a box of size `extent` at `offset` within this frame is put on
    /// the slide, before it is turned about its own centre: so that its centre
    /// lands where the frame's turn takes it.
    pub open spec fn placed_at(self, offset: PtOffset, extent: PtSize) -> PtOffset {
        if self.rotation.units == 0 {
            PtOffset {
                x: units::pt(self.origin.x.emu + offset.x.emu),
                y: units::pt(self.origin.y.emu + offset.y.emu),
            }
        } else {
            let x2 = 2 * offset.x.emu + extent.width.emu;
            let y2 = 2 * offset.y.emu + extent.height.emu;
            PtOffset {
                x: units::pt(
                    self.origin.x.emu + units::round_half_q30(
                        turned_x(self, x2, y2) - 1073741824 * extent.width.emu,
                    ),
                ),
                y: units::pt(
                    self.origin.y.emu + units::round_half_q30(
                        turned_y(self, x2, y2) - 1073741824 * extent.height.emu,
                    ),
                ),
            }
        }
    }

    /// Where a point of this frame lands on the slide.
    pub open spec fn point_at(self, x: Pt, y: Pt) -> PtOffset {
        if self.rotation.units == 0 {
            PtOffset {
                x: units::pt(self.origin.x.emu + x.emu),
                y: units::pt(self.origin.y.emu + y.emu),
            }
        } else {
            PtOffset {
                x: units::pt(
                    self.origin.x.emu + units::round_half_q30(
                        turned_x(self, 2 * x.emu, 2 * y.emu),
                    ),
                ),
                y: units::pt(
                    self.origin.y.emu + units::round_half_q30(
                        turned_y(self, 2 * x.emu, 2 * y.emu),
                    ),
                ),
            }
        }
    }

    fn turn(&self, x2: i128, y2: i128) -> (r: (i128, i128))
        requires
            self.direction.ok(),
            -0x3_0000_0000_0000_0000 <= x2 <= 0x3_0000_0000_0000_0000,
            -0x3_0000_0000_0000_0000 <= y2 <= 0x3_0000_0000_0000_0000,
        ensures
            r.0 == turned_x(*self, x2 as int, y2 as int),
            r.1 == turned_y(*self, x2 as int, y2 as int),
            -0x10_0000_0000_0000_0000_0000_0000 <= r.0 <= 0x10_0000_0000_0000_0000_0000_0000,
            -0x10_0000_0000_0000_0000_0000_0000 <= r.1 <= 0x10_0000_0000_0000_0000_0000_0000,
    {
        let w: i128 = self.extent.width.emu as i128;
        let h: i128 = self.extent.height.emu as i128;
        let dx: i128 = x2 - w;
        let dy: i128 = y2 - h;
        let cx: i128 = units::scaled(self.direction.cos, dx);
        let sy: i128 = units::scaled(self.direction.sin, dy);
        let sx: i128 = units::scaled(self.direction.sin, dx);
        let cy: i128 = units::scaled(self.direction.cos, dy);
        (1073741824 * w + (cx - sy), 1073741824 * h + (sx + cy))
    }

    /// The placement of a box of size `extent` at `offset` within this frame.
    /// It is never mirrored: a mirrored shape does not mirror its text.
    pub fn place(&self, offset: PtOffset, extent: PtSize) -> (r: ShapeTransform)
        requires
            self.direction.ok(),
        ensures
            r == (ShapeTransform {
                origin: self.placed_at(offset, extent),
                rotation: self.rotation,
                flip_h: false,
                flip_v: false,
                extent,
            }),
    {
        let origin = if self.rotation.units == 0 {
            PtOffset { x: self.origin.x.plus(offset.x), y: self.origin.y.plus(offset.y) }
        } else {
            let x2: i128 = 2 * offset.x.emu as i128 + extent.width.emu as i128;
            let y2: i128 = 2 * offset.y.emu as i128 + extent.height.emu as i128;
            let (tx, ty) = self.turn(x2, y2);
            let rx: i128 = units::rounded_half_q30(tx - 1073741824 * extent.width.emu as i128);
            let ry: i128 = units::rounded_half_q30(ty - 1073741824 * extent.height.emu as i128);
            PtOffset {
                x: Pt { emu: units::saturate(self.origin.x.emu as i128 + rx) },
                y: Pt { emu: units::saturate(self.origin.y.emu as i128 + ry) },
            }
        };
        ShapeTransform { origin, rotation: self.rotation, flip_h: false, flip_v: false, extent }
    }

    /// The angle that an item of this frame reports: counter-clockwise.
    pub open spec fn spec_item_rotation(self) -> Angle {
        Angle { units: units::sat(-self.rotation.units) as i64 }
    }

    /// The angle that an item of this frame reports: counter-clockwise.
    pub fn item_rotation(&self) -> (r: Angle)
        ensures
            r == self.spec_item_rotation(),
    {
        Angle { units: units::saturate(-(self.rotation.units as i128)) }
    }

    /// An item of a box at `offset` within this frame, put on the slide. It
    /// keeps its own width and height and says how it is turned.
    pub open spec fn placed_item(self, item: TextItem, offset: PtOffset) -> TextItem {
        let p = self.point_at(item.x.spec_plus(offset.x), item.y.spec_plus(offset.y));
        TextItem {
            x: p.x,
            y: p.y,
            rotation: if self.rotation.units == 0 {
                item.rotation
            } else {
                self.spec_item_rotation()
            },
            ..item
        }
    }

    /// Puts the items of a box at `offset` within this frame on the slide.
    pub fn push_items(&self, items: Vec<TextItem>, offset: PtOffset, out: &mut Vec<TextItem>)
        requires
            self.direction.ok(),
        ensures
            final(out)@ == old(out)@ + items@.map_values(
                |item: TextItem| self.placed_item(item, offset),
            ),
    {
        let ghost start = out@;
        let ghost all = items@;
        let ghost f = *self;
        assert(out@ =~= start + all.take(0).map_values(
            |item: TextItem| f.placed_item(item, offset),
        ));
        for item in it: items
            invariant
                self.direction.ok(),
                f == *self,
                it.seq() == all,
                out@ == start + all.take(it.index() as int).map_values(
                    |item: TextItem| f.placed_item(item, offset),
                ),
        {
            let ghost k = it.index() as int;
            let mut placed = item;
            let x = placed.x.plus(offset.x);
            let y = placed.y.plus(offset.y);
            if self.rotation.units == 0 {
                placed.x = self.origin.x.plus(x);
                placed.y = self.origin.y.plus(y);
            } else {
                let (tx, ty) = self.turn(2 * x.emu as i128, 2 * y.emu as i128);
                placed.x = Pt {
                    emu: units::saturate(self.origin.x.emu as i128 + units::rounded_half_q30(tx)),
                };
                placed.y = Pt {
                    emu: units::saturate(self.origin.y.emu as i128 + units::rounded_half_q30(ty)),
                };
                placed.rotation = self.item_rotation();
            }
            assert(placed == f.placed_item(all[k], offset));
            out.push(placed);
            assert(out@ =~= start + all.take(k + 1).map_values(
                |item: TextItem| f.placed_item(item, offset),
            ));
        }
        assert(all.take(all.len() as int) =~= all);
    }
}

/// A box that fills its frame keeps the frame's origin, however the frame is
/// turned.
pub proof fn full_box_keeps_origin(f: Frame)
    ensures
        f.placed_at(PtOffset { x: Pt::spec_zero(), y: Pt::spec_zero() }, f.extent) == f.origin,
{
    let (w, h) = (f.extent.width.emu as int, f.extent.height.emu as int);
    assert(turned_x(f, w, h) == 1073741824 * w) by (nonlinear_arith)
        requires
            turned_x(f, w, h) == 1073741824 * f.extent.width.emu + (f.direction.cos * (w
                - f.extent.width.emu) - f.direction.sin * (h - f.extent.height.emu)),
            w == f.extent.width.emu,
            h == f.extent.height.emu,
    ;
    assert(turned_y(f, w, h) == 1073741824 * h) by (nonlinear_arith)
        requires
            turned_y(f, w, h) == 1073741824 * f.extent.height.emu + (f.direction.sin * (w
                - f.extent.width.emu) + f.direction.cos * (h - f.extent.height.emu)),
            w == f.extent.width.emu,
            h == f.extent.height.emu,
    ;
}

/// In a frame that is not turned, a box lies at its offset.
pub proof fn unturned_box_lies_at_offset(f: Frame, offset: PtOffset, extent: PtSize)
    requires
        f.rotation.units == 0,
    ensures
        f.placed_at(offset, extent) == f.origin.spec_shifted(offset.x, offset.y),
        f.point_at(offset.x, offset.y) == f.origin.spec_shifted(offset.x, offset.y),
{
}

/// A direction of no turn at all leaves every point where an unturned frame
/// has it, whatever the frame's angle says.
pub proof fn null_direction_turns_nothing(f: Frame, x: Pt, y: Pt)
    requires
        f.direction == (Direction { sin: 0, cos: DIRECTION_ONE }),
    ensures
        f.point_at(x, y) == f.origin.spec_shifted(x, y),
{
    let (w, h) = (f.extent.width.emu as int, f.extent.height.emu as int);
    let (cos, sin) = (f.direction.cos as int, f.direction.sin as int);
    let (dx, dy) = (2 * x.emu - w, 2 * y.emu - h);
    assert(cos * dx - sin * dy == 1073741824 * dx) by (nonlinear_arith)
        requires
            cos == 1073741824,
            sin == 0,
    ;
    assert(sin * dx + cos * dy == 1073741824 * dy) by (nonlinear_arith)
        requires
            cos == 1073741824,
            sin == 0,
    ;
    assert(turned_x(f, 2 * x.emu, 2 * y.emu) == 2147483648 * x.emu);
    assert(turned_y(f, 2 * x.emu, 2 * y.emu) == 2147483648 * y.emu);
}

/// The box, unturned, that a placement covers on the slide.
pub open spec fn frame_rect(f: Frame, offset: PtOffset, extent: PtSize) -> Rect {
    Rect {
        x: f.origin.x.spec_plus(offset.x),
        y: f.origin.y.spec_plus(offset.y),
        width: extent.width,
        height: extent.height,
    }
}

}
