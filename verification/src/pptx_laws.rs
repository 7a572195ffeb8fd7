//! What a slide's pictures, shapes, tables and text keep of what was declared for
//! them.
use crate::docx_layout;
use crate::draw_command::{DrawCommand, LayoutedPage, PathVerb, Rgba, TransformMark};
use crate::geometry::{PtOffset, PtRect, PtSize};
use crate::pptx_layout;
use crate::pptx_layout::{ReadShape, SlideInput};
use crate::pptx_paint;
use crate::pptx_paint::{
    Background, DeclaredFill, FillView, GroupFill, PaintKind, PaintShape, Rung, ShapeInk,
    SlideTally,
};
use crate::pptx_shapes;
use crate::pptx_shapes::{Frame, ShapeGeometry, ShapePath, SlideRect};
use crate::pptx_table;
use crate::pptx_table::{BodyLayout, CellBox, CellLayout, Table, TableCell, TableRow};
use crate::pptx_text;
use crate::pptx_text::{PlacedBody, PlacementKind, ShapePlacement, TextShape};
use crate::types::{Page, TextItem};
use crate::units;
use crate::units::{Direction, Pt};
use vstd::prelude::*;

verus! {

// ── Outlines ───────────────────────────────────────────────────────────

/// The corner at the given place.
pub open spec fn corner(x: Pt, y: Pt) -> PtOffset {
    PtOffset { x, y }
}

/// A rectangle runs once round its box: from the top left corner to the right, down,
/// to the left and back.
pub proof fn rectangles_run_round_their_box(extent: PtSize)
    ensures
        ({
            let v = pptx_shapes::rect_verbs(extent);
            let (z, w, h) = (Pt { emu: 0 }, extent.width, extent.height);
            &&& v.len() == 5
            &&& v[0] == PathVerb::MoveTo(corner(z, z))
            &&& v[1] == PathVerb::LineTo(corner(w, z))
            &&& v[2] == PathVerb::LineTo(corner(w, h))
            &&& v[3] == PathVerb::LineTo(corner(z, h))
            &&& v[4] is Close
        }),
{
}

/// The radius of a rounded corner is the adjusted part of the shorter side, at most
/// half of it.
pub proof fn corners_round_a_part_of_the_shorter_side(extent: PtSize, adjust: i64)
    requires
        extent.width.emu > 0,
        extent.height.emu > 0,
    ensures
        ({
            let r = pptx_shapes::corner_radius(extent, adjust).emu as int;
            let (w, h) = (extent.width.emu as int, extent.height.emu as int);
            let side = if w < h {
                w
            } else {
                h
            };
            &&& 0 <= 2 * r <= side
            &&& adjust <= 0 ==> r == 0
            &&& 0 <= adjust <= 50_000 ==> 100_000 * r <= side * adjust < 100_000 * r + 100_000
            &&& adjust >= 50_000 ==> side - 1 <= 2 * r <= side
        }),
{
    let (w, h) = (extent.width.emu as int, extent.height.emu as int);
    let side = if w < h {
        w
    } else {
        h
    };
    if 0 <= adjust <= 50_000 {
        assert(0 <= side * adjust <= side * 50_000) by (nonlinear_arith)
            requires
                0 <= adjust <= 50_000,
                0 < side,
        ;
    }
}

/// A rounded rectangle touches its box in the middle of each side only, and turns a
/// quarter round each corner with the radius given.
pub proof fn rounded_rectangles_touch_their_box(extent: PtSize, r: Pt)
    requires
        0 <= r.emu <= extent.width.emu,
        r.emu <= extent.height.emu,
    ensures
        ({
            let v = pptx_shapes::round_rect_verbs(extent, r);
            let (z, w, h) = (Pt { emu: 0 }, extent.width, extent.height);
            let less_w = Pt { emu: (w.emu - r.emu) as i64 };
            let less_h = Pt { emu: (h.emu - r.emu) as i64 };
            &&& v.len() == 9
            &&& v[0] == PathVerb::MoveTo(corner(z, r))
            &&& v[2] == PathVerb::LineTo(corner(less_w, z))
            &&& v[4] == PathVerb::LineTo(corner(w, less_h))
            &&& v[6] == PathVerb::LineTo(corner(r, h))
            &&& v[8] is Close
            &&& forall|i: int|
                #![trigger v[i]]
                i == 1 || i == 3 || i == 5 || i == 7 ==> {
                    &&& v[i] matches PathVerb::ArcTo { radii, start_angle, swing_angle }
                    &&& radii.width == r && radii.height == r
                    &&& swing_angle.units == 5_400_000
                    &&& start_angle.units == (10_800_000 + 2_700_000 * (i - 1)) % 21_600_000
                }
        }),
{
}

/// Text stands in the whole box of a rectangle and of a shape without a geometry,
/// and in the box that the geometry names where it was built with one.
pub proof fn text_stands_in_the_whole_box(extent: PtSize, built: ShapePath)
    requires
        extent.width.emu > 0,
        extent.height.emu > 0,
    ensures
        ({
            let whole = PtRect { origin: corner(Pt { emu: 0 }, Pt { emu: 0 }), size: extent };
            let r = pptx_shapes::body_box(Some(ShapeGeometry::Built(built)), extent);
            &&& pptx_shapes::body_box(Some(ShapeGeometry::Rect), extent) == whole
            &&& pptx_shapes::body_box(None, extent) == whole
            &&& built.text_rect is None ==> r == whole
            &&& built.text_rect matches Some(named) ==> if named.size.width.emu > 0
                && named.size.height.emu > 0 {
                r == named
            } else {
                r == whole
            }
        }),
{
}

/// The text of a rounded rectangle keeps clear of its corners by the part of the
/// radius that a quarter circle leaves free.
pub proof fn text_keeps_clear_of_rounded_corners(extent: PtSize, adjust: i64)
    requires
        extent.width.emu > 0,
        extent.height.emu > 0,
    ensures
        ({
            let r = pptx_shapes::corner_radius(extent, adjust).emu as int;
            let i = pptx_shapes::corner_inset(extent, adjust).emu as int;
            100_000 * i <= r * 29_289 < 100_000 * i + 100_000
        }),
{
    corners_round_a_part_of_the_shorter_side(extent, adjust);
}

// ── Frames ─────────────────────────────────────────────────────────────

/// Whether a direction is half a turn.
pub open spec fn half_turn(d: Direction) -> bool {
    d.sin == 0 && d.cos == -1073741824
}

/// Whether a direction is a quarter turn clockwise.
pub open spec fn quarter_turn(d: Direction) -> bool {
    d.cos == 0 && d.sin == 1073741824
}

proof fn lemma_turns(f: Frame, x2: int, y2: int)
    ensures
        ({
            let (w, h) = (f.extent.width.emu as int, f.extent.height.emu as int);
            &&& half_turn(f.direction) ==> pptx_shapes::turned_x(f, x2, y2) == 1073741824 * (2 * w
                - x2) && pptx_shapes::turned_y(f, x2, y2) == 1073741824 * (2 * h - y2)
            &&& quarter_turn(f.direction) ==> pptx_shapes::turned_x(f, x2, y2) == 1073741824 * (w + h
                - y2) && pptx_shapes::turned_y(f, x2, y2) == 1073741824 * (h - w + x2)
        }),
{
    let (w, h) = (f.extent.width.emu as int, f.extent.height.emu as int);
    let (s, c) = (f.direction.sin as int, f.direction.cos as int);
    if s == 0 {
        assert(s * (y2 - h) == 0 && s * (x2 - w) == 0) by (nonlinear_arith)
            requires
                s == 0,
        ;
        if c == -1073741824 {
            assert(c * (x2 - w) == -1073741824 * (x2 - w) && c * (y2 - h) == -1073741824 * (y2
                - h)) by (nonlinear_arith)
                requires
                    c == -1073741824,
            ;
        }
    }
    if c == 0 {
        assert(c * (y2 - h) == 0 && c * (x2 - w) == 0) by (nonlinear_arith)
            requires
                c == 0,
        ;
        if s == 1073741824 {
            assert(s * (x2 - w) == 1073741824 * (x2 - w) && s * (y2 - h) == 1073741824 * (y2 - h))
                by (nonlinear_arith)
                requires
                    s == 1073741824,
            ;
        }
    }
}

/// Half a turn carries a point of a shape to the one across from it, and a box to
/// the one across from it.
pub proof fn half_turns_carry_points_across(f: Frame, x: Pt, y: Pt, extent: PtSize)
    requires
        half_turn(f.direction),
        f.rotation.units != 0,
    ensures
        ({
            let p = f.point_at(x, y);
            let b = f.placed_at(corner(x, y), extent);
            let (w, h) = (f.extent.width.emu as int, f.extent.height.emu as int);
            &&& p.x.emu == units::sat(f.origin.x.emu + w - x.emu)
            &&& p.y.emu == units::sat(f.origin.y.emu + h - y.emu)
            &&& b.x.emu == units::sat(f.origin.x.emu + w - x.emu - extent.width.emu)
            &&& b.y.emu == units::sat(f.origin.y.emu + h - y.emu - extent.height.emu)
        }),
{
    lemma_turns(f, 2 * x.emu, 2 * y.emu);
    lemma_turns(f, 2 * x.emu + extent.width.emu, 2 * y.emu + extent.height.emu);
}

/// A quarter turn carries what lies right of the middle of a shape below it, and
/// what lies below it to the left; to the nearest unit where half of one is left.
pub proof fn quarter_turns_carry_right_to_below(f: Frame, x: Pt, y: Pt, extent: PtSize)
    requires
        quarter_turn(f.direction),
        f.rotation.units != 0,
    ensures
        ({
            let p = f.point_at(x, y);
            let b = f.placed_at(corner(x, y), extent);
            let (w, h) = (f.extent.width.emu as int, f.extent.height.emu as int);
            let (u, v) = (extent.width.emu as int, extent.height.emu as int);
            &&& p.x.emu == units::sat(f.origin.x.emu + (w + h + 1) / 2 - y.emu)
            &&& p.y.emu == units::sat(f.origin.y.emu + (h - w + 1) / 2 + x.emu)
            &&& b.x.emu == units::sat(f.origin.x.emu + (w + h - v - u + 1) / 2 - y.emu)
            &&& b.y.emu == units::sat(f.origin.y.emu + (h - w + u - v + 1) / 2 + x.emu)
        }),
{
    lemma_turns(f, 2 * x.emu, 2 * y.emu);
    lemma_turns(f, 2 * x.emu + extent.width.emu, 2 * y.emu + extent.height.emu);
}

/// The text of a turned shape is turned back by as much, and keeps everything but
/// its place: what it says, its size, its font and where it leads.
pub proof fn placed_text_keeps_everything_but_its_place(f: Frame, item: TextItem, offset: PtOffset)
    ensures
        ({
            let r = f.placed_item(item, offset);
            &&& r.text@ == item.text@
            &&& r.width == item.width && r.height == item.height
            &&& r.font_name == item.font_name && r.font_size == item.font_size
            &&& r.font_height == item.font_height && r.font_weight == item.font_weight
            &&& r.font_ascent == item.font_ascent && r.font_descent == item.font_descent
            &&& r.text_width == item.text_width
            &&& r.fill_color == item.fill_color && r.stroke_color == item.stroke_color
            &&& r.link == item.link && r.mcid == item.mcid && r.words == item.words
            &&& r.strike == item.strike
            &&& f.rotation.units == 0 ==> r.rotation == item.rotation && r.x.emu == units::sat(
                f.origin.x.emu + units::sat(item.x.emu + offset.x.emu),
            ) && r.y.emu == units::sat(f.origin.y.emu + units::sat(item.y.emu + offset.y.emu))
            &&& f.rotation.units != 0 ==> r.rotation.units == units::sat(-f.rotation.units)
        }),
{
}

/// A frame stands where its shape stands, as large and as far turned.
pub proof fn frames_stand_where_their_shape_stands(s: SlideRect, extent: PtSize)
    ensures
        ({
            let f = Frame::spec_new(s, extent);
            &&& f.origin.x == s.rect.origin.x
            &&& f.origin.y == s.rect.origin.y
            &&& f.extent.width == extent.width
            &&& f.extent.height == extent.height
            &&& f.rotation == s.rotation
            &&& f.direction == s.direction
        }),
{
}

// ── Painting ───────────────────────────────────────────────────────────

/// A painted shape stands in its own box, turned and mirrored as the shape is, with
/// its own outline and effects.
pub proof fn shapes_are_painted_in_their_place(
    c: DrawCommand,
    s: PaintShape,
    group: Option<FillView>,
)
    requires
        pptx_paint::is_shape_path(c, s, group),
    ensures
        c is Path,
        s.slide_rect is Some,
        ({
            let r = s.slide_rect->0;
            &&& c->Path_origin.x == r.bounding_box.origin.x
            &&& c->Path_origin.y == r.bounding_box.origin.y
            &&& c->Path_extent.width == r.bounding_box.size.width
            &&& c->Path_extent.height == r.bounding_box.size.height
            &&& c->Path_rotation == r.rotation
            &&& c->Path_flip_h == r.flip_h
            &&& c->Path_flip_v == r.flip_v
        }),
        s.kind matches PaintKind::AutoShape { ink: Some(ink), .. } ==> c->Path_stroke == ink.stroke
            && c->Path_effects == ink.effects,
        s.kind matches PaintKind::Connector { ink: Some(ink) } ==> c->Path_stroke == ink.stroke
            && c->Path_effects == ink.effects,
        s.kind matches PaintKind::Picture { ink: Some(ink), .. } ==> c->Path_stroke == ink.stroke
            && c->Path_effects == ink.effects,
{
}

/// A shape is filled with its own fill, or with its group's where it asks for that;
/// a picture with its image, or as a shape is where it has none.
pub proof fn shapes_are_filled_as_declared(c: DrawCommand, s: PaintShape, group: Option<FillView>)
    requires
        pptx_paint::is_shape_path(c, s, group),
    ensures
        ({
            let fill = c->Path_fill@;
            let image = match s.kind {
                PaintKind::Picture { image, .. } => image@,
                _ => FillView::NoFill,
            };
            let ink = match s.kind {
                PaintKind::AutoShape { ink, .. } => ink,
                PaintKind::Connector { ink } => ink,
                PaintKind::Picture { ink, .. } => ink,
                _ => None,
            };
            &&& ink is Some
            &&& !(image is NoFill) ==> fill == image
            &&& image is NoFill && ink->0.declared_fill != DeclaredFill::Group ==> fill
                == ink->0.fill@
            &&& image is NoFill && ink->0.declared_fill == DeclaredFill::Group && group is Some
                ==> fill == group->0
            &&& image is NoFill && ink->0.declared_fill == DeclaredFill::Group && group is None
                ==> fill is NoFill
        }),
{
}

/// Whether a shape of the given look can be drawn in a box.
pub open spec fn drawable(look: ShapeGeometry, box_size: PtSize) -> bool {
    match look {
        ShapeGeometry::Built(_) => true,
        ShapeGeometry::Undefined(_) => false,
        _ => box_size.width.emu > 0 && box_size.height.emu > 0,
    }
}

/// Whether a shape that stands for itself has the given ink.
pub open spec fn has_ink(s: PaintShape, ink: ShapeInk) -> bool {
    match s.kind {
        PaintKind::AutoShape { ink: i, .. } => i == Some(ink),
        PaintKind::Connector { ink: i } => i == Some(ink),
        PaintKind::Picture { ink: i, .. } => i == Some(ink),
        _ => false,
    }
}

/// A shape is painted exactly where it has a fill or an outline, a place, and a look
/// that can be drawn there; a picture without a look is drawn as a rectangle.
pub proof fn shapes_are_painted_where_there_is_something_to_paint(
    s: PaintShape,
    ink: ShapeInk,
    group: Option<FillView>,
)
    requires
        has_ink(s, ink),
    ensures
        ({
            let image = s.kind is Picture && !(s.kind->Picture_image@ is NoFill);
            let own = if ink.declared_fill == DeclaredFill::Group {
                group is Some && !(group->0 is NoFill)
            } else {
                !(ink.fill@ is NoFill)
            };
            let look = match ink.geometry {
                Some(g) => Some(g),
                None => if s.kind is Picture {
                    Some(ShapeGeometry::Rect)
                } else {
                    None
                },
            };
            pptx_paint::painted_shapes(s, group) == (if (image || own || ink.stroke is Some)
                && s.slide_rect is Some && look is Some && drawable(
                look->0,
                s.slide_rect->0.bounding_box.size,
            ) {
                seq![(s, group)]
            } else {
                seq![]
            })
        }),
{
}

/// A group paints its children in order and nothing of its own; they may ask for
/// the fill that it declares, or for its own group's where it asks for that.
pub proof fn groups_paint_their_children(
    s: PaintShape,
    fill: GroupFill,
    children: Vec<PaintShape>,
    group: Option<FillView>,
)
    requires
        s.kind == (PaintKind::Group { fill, children }),
    ensures
        ({
            let offered = match fill {
                GroupFill::Absent => None,
                GroupFill::Parent => group,
                GroupFill::Own(f) => if f@ is NoFill {
                    None
                } else {
                    Some(f@)
                },
            };
            pptx_paint::painted_shapes(s, group) == pptx_paint::painted_list(
                children@,
                children@.len() as int,
                offered,
            )
        }),
{
}

proof fn lemma_painted_prefix(a: Seq<PaintShape>, b: Seq<PaintShape>, n: int, group: Option<FillView>)
    requires
        0 <= n <= a.len(),
    ensures
        pptx_paint::painted_list(a + b, n, group) == pptx_paint::painted_list(a, n, group),
    decreases n,
{
    if n > 0 {
        lemma_painted_prefix(a, b, n - 1, group);
        assert((a + b)[n - 1] == a[n - 1]);
    }
}

/// Shapes are painted in the order in which they stand: what follows is painted over
/// what it follows.
pub proof fn later_shapes_are_painted_over_earlier(
    a: Seq<PaintShape>,
    b: Seq<PaintShape>,
    n: int,
    group: Option<FillView>,
)
    requires
        0 <= n <= b.len(),
    ensures
        pptx_paint::painted_list(a + b, a.len() + n, group) == pptx_paint::painted_list(
            a,
            a.len() as int,
            group,
        ) + pptx_paint::painted_list(b, n, group),
    decreases n,
{
    let all = pptx_paint::painted_list(a, a.len() as int, group);
    if n > 0 {
        later_shapes_are_painted_over_earlier(a, b, n - 1, group);
        assert((a + b)[a.len() + n - 1] == b[n - 1]);
        assert(pptx_paint::painted_list(a + b, a.len() + n, group) =~= all
            + pptx_paint::painted_list(b, n, group));
    } else {
        lemma_painted_prefix(a, b, a.len() as int, group);
        assert(all + pptx_paint::painted_list(b, 0, group) =~= all);
    }
}

/// Whether a count went up by one exactly where it was to, as far as it can.
pub open spec fn counted(before: usize, after: usize, yes: bool) -> bool {
    &&& !yes || before == usize::MAX ==> after == before
    &&& yes && before < usize::MAX ==> after == before + 1
}

/// What is seen of a shape is counted: pictures, and those without an image; styles,
/// and those that led to nothing; groups asked for a fill, and whether they had one;
/// text inherited; and, of a shape that would be painted, whether it was, on which
/// rung, and from where its fill and outline came.
pub proof fn shapes_are_counted_for_what_they_are(
    t: SlideTally,
    s: PaintShape,
    ink: ShapeInk,
    rung: Rung,
    group: Option<FillView>,
)
    requires
        has_ink(s, ink),
    ensures
        ({
            let u = pptx_paint::paint_tally(t, s, rung, group);
            let picture = s.kind is Picture;
            let image = picture && !(s.kind->Picture_image@ is NoFill);
            let asks = ink.declared_fill == DeclaredFill::Group;
            let own = if asks {
                group is Some && !(group->0 is NoFill)
            } else {
                !(ink.fill@ is NoFill)
            };
            let look = match ink.geometry {
                Some(g) => Some(g),
                None => if picture {
                    Some(ShapeGeometry::Rect)
                } else {
                    None
                },
            };
            let inked = image || own || ink.stroke is Some;
            let painted = inked && s.slide_rect is Some && look is Some && drawable(
                look->0,
                s.slide_rect->0.bounding_box.size,
            );
            let slide = rung == Rung::Slide;
            &&& counted(t.painted_shapes, u.painted_shapes, slide && painted)
            &&& counted(t.unpainted_shapes, u.unpainted_shapes, slide && inked && !painted)
            &&& counted(t.inherited_shapes_painted, u.inherited_shapes_painted, !slide && painted)
            &&& counted(
                t.inherited_shapes_unpainted,
                u.inherited_shapes_unpainted,
                !slide && inked && !painted,
            )
            &&& counted(t.pictures_seen, u.pictures_seen, picture)
            &&& counted(t.pictures_unresolved, u.pictures_unresolved, picture && !image)
            &&& counted(
                t.pictures_implicit_rect,
                u.pictures_implicit_rect,
                picture && inked && s.slide_rect is Some && ink.geometry is None,
            )
            &&& counted(t.shapes_with_style, u.shapes_with_style, s.style is Some)
            &&& counted(t.fills_from_group, u.fills_from_group, asks && own)
            &&& counted(t.group_fills_unanswered, u.group_fills_unanswered, asks && !own)
            &&& counted(
                t.outlines_defaulted_black,
                u.outlines_defaulted_black,
                painted && ink.stroke_color_defaulted,
            )
            &&& counted(
                t.fills_from_style_ref,
                u.fills_from_style_ref,
                painted && own && ink.declared_fill == DeclaredFill::Absent,
            )
            &&& counted(
                t.strokes_from_style_ref,
                u.strokes_from_style_ref,
                painted && ink.stroke is Some && !ink.outline_declared,
            )
            &&& counted(
                t.style_refs_unresolved,
                u.style_refs_unresolved,
                s.style matches Some(refs) && (refs.fill_index != 0 && !own && ink.declared_fill
                    == DeclaredFill::Absent || refs.line_index != 0 && ink.stroke is None
                    && !ink.outline_declared),
            )
            &&& counted(
                t.blips_painted,
                u.blips_painted,
                painted && (if image {
                    s.kind->Picture_image@ is Blip
                } else if asks {
                    group is Some && group->0 is Blip
                } else {
                    ink.fill@ is Blip
                }),
            )
            &&& counted(
                t.inherited_shapes_with_text,
                u.inherited_shapes_with_text,
                !slide && (s.kind matches PaintKind::AutoShape { paragraphs, .. } && exists|i: int|
                    0 <= i < paragraphs@.len() && (#[trigger] paragraphs@[i])@.len() > 0),
            )
            &&& u.placed_table_cells == t.placed_table_cells
            &&& u.unplaced_table_cells == t.unplaced_table_cells
            &&& u.unplaced_diagram_bodies == t.unplaced_diagram_bodies
            &&& u.inherited_text_laid_out == t.inherited_text_laid_out
            &&& u.slides_declining_layout == t.slides_declining_layout
            &&& u.slides_declining_master == t.slides_declining_master
            &&& u.painted_backgrounds == t.painted_backgrounds
            &&& u.transparent_backgrounds == t.transparent_backgrounds
            &&& u.unrenderable_backgrounds == t.unrenderable_backgrounds
            &&& u.undeclared_backgrounds == t.undeclared_backgrounds
            &&& u.runs_colour_declared == t.runs_colour_declared
            &&& u.runs_colour_defaulted == t.runs_colour_defaulted
            &&& u.runs_invisible_on_background == t.runs_invisible_on_background
            &&& u.blip_backgrounds_painted == t.blip_backgrounds_painted
        }),
{
}

/// A run is counted once, by whether it declares a colour, and as invisible where
/// that colour, black where it declares none, is the background's.
pub proof fn runs_are_counted_by_their_colour(
    t: SlideTally,
    declared: Option<u32>,
    background: Option<u32>,
)
    ensures
        ({
            let u = pptx_paint::run_tally(t, declared, background);
            let rgb = match declared {
                Some(c) => c,
                None => 0,
            };
            &&& counted(t.runs_colour_declared, u.runs_colour_declared, declared is Some)
            &&& counted(t.runs_colour_defaulted, u.runs_colour_defaulted, declared is None)
            &&& counted(
                t.runs_invisible_on_background,
                u.runs_invisible_on_background,
                background == Some(rgb),
            )
            &&& u.painted_shapes == t.painted_shapes
            &&& u.unpainted_shapes == t.unpainted_shapes
            &&& u.placed_table_cells == t.placed_table_cells
            &&& u.unplaced_table_cells == t.unplaced_table_cells
        }),
{
}

/// Counting runs one behind another is counting each of them once.
pub proof fn runs_are_counted_one_by_one(
    t: SlideTally,
    declared: Seq<Option<u32>>,
    n: int,
    background: Option<u32>,
)
    requires
        0 < n <= declared.len(),
    ensures
        pptx_paint::run_tallies(t, declared, 0, background) == t,
        pptx_paint::run_tallies(t, declared, n, background) == pptx_paint::run_tally(
            pptx_paint::run_tallies(t, declared, n - 1, background),
            declared[n - 1],
            background,
        ),
{
}

/// A run is painted in the colour that it declares, red first, and in black where it
/// declares none.
pub proof fn runs_are_painted_in_their_colour(declared: Option<u32>)
    ensures
        ({
            let c = pptx_paint::run_paint(declared);
            &&& declared is None ==> c.r == 0 && c.g == 0 && c.b == 0
            &&& declared matches Some(v) ==> v < 0x100_0000 ==> v == c.r * 65_536 + c.g * 256 + c.b
        }),
{
}

/// Whether a byte stands for a channel in millionths, to the nearest one.
pub open spec fn is_byte_of(byte: int, channel: int) -> bool {
    &&& channel <= 0 ==> byte == 0
    &&& channel >= 1_000_000 ==> byte == 255
    &&& 0 <= channel <= 1_000_000 ==> 255 * channel - 500_000 < 1_000_000 * byte <= 255 * channel
        + 500_000
}

/// The colour of a slide is that of its background where that is painted in one
/// colour, red first; no other background has one.
pub proof fn slides_have_the_colour_of_their_background(
    background: Option<Background>,
    page_size: PtSize,
    c: Rgba,
)
    requires
        page_size.width.emu > 0,
        page_size.height.emu > 0,
    ensures
        background is Some && background->0.fill@ == FillView::Solid(c) ==> {
            &&& pptx_paint::background_color(background, page_size) matches Some(v)
            &&& v < 0x100_0000
            &&& is_byte_of(v as int / 65_536, c.r as int)
            &&& is_byte_of((v as int / 256) % 256, c.g as int)
            &&& is_byte_of(v as int % 256, c.b as int)
        },
        background is None || !(background->0.fill@ is Solid) ==> pptx_paint::background_color(
            background,
            page_size,
        ) is None,
{
    lemma_byte(c.r);
    lemma_byte(c.g);
    lemma_byte(c.b);
    lemma_three_bytes(
        pptx_paint::channel_byte(c.r),
        pptx_paint::channel_byte(c.g),
        pptx_paint::channel_byte(c.b),
    );
}

proof fn lemma_byte(v: i32)
    ensures
        0 <= pptx_paint::channel_byte(v) < 256,
        is_byte_of(pptx_paint::channel_byte(v), v as int),
{
}

proof fn lemma_three_bytes(x: int, y: int, z: int)
    requires
        0 <= x < 256,
        0 <= y < 256,
        0 <= z < 256,
    ensures
        ({
            let v = x * 65536 + y * 256 + z;
            &&& 0 <= v < 0x100_0000
            &&& v / 65_536 == x
            &&& (v / 256) % 256 == y
            &&& v % 256 == z
        }),
{
    assert((x * 65536 + y * 256 + z) / 256 == x * 256 + y);
}

/// A background fills the whole slide, unturned and without an outline, in the fill
/// that it declares.
pub proof fn backgrounds_fill_the_whole_slide(c: DrawCommand, fill: FillView, page_size: PtSize)
    requires
        pptx_paint::is_backdrop(c, fill, page_size),
    ensures
        c is Path,
        c->Path_origin.x.emu == 0 && c->Path_origin.y.emu == 0,
        c->Path_extent.width == page_size.width && c->Path_extent.height == page_size.height,
        c->Path_rotation.units == 0 && !c->Path_flip_h && !c->Path_flip_v,
        c->Path_fill@ == fill,
        c->Path_stroke is None,
        c->Path_effects@.len() == 0,
        c->Path_paths@.len() == 1,
        c->Path_paths@[0].verbs@ == pptx_shapes::rect_verbs(page_size),
{
}

/// Each slide's background is counted once: painted, transparent by its own word,
/// of a kind that cannot be painted, or not declared.
pub proof fn backgrounds_are_counted_once(
    t: SlideTally,
    background: Option<Background>,
    page_size: PtSize,
)
    requires
        page_size.width.emu > 0,
        page_size.height.emu > 0,
    ensures
        ({
            let u = pptx_paint::background_tally(t, background, page_size);
            let empty = background is Some && background->0.fill@ is NoFill;
            let none = background is Some && background->0.declared_none;
            &&& counted(t.undeclared_backgrounds, u.undeclared_backgrounds, background is None)
            &&& counted(t.transparent_backgrounds, u.transparent_backgrounds, empty && none)
            &&& counted(t.unrenderable_backgrounds, u.unrenderable_backgrounds, empty && !none)
            &&& counted(
                t.painted_backgrounds,
                u.painted_backgrounds,
                background is Some && !empty,
            )
            &&& counted(
                t.blip_backgrounds_painted,
                u.blip_backgrounds_painted,
                background is Some && background->0.fill@ is Blip,
            )
            &&& u.painted_shapes == t.painted_shapes
            &&& u.unpainted_shapes == t.unpainted_shapes
        }),
{
}

// ── Tables ─────────────────────────────────────────────────────────────

/// The edges of columns and rows start at nought, and each lies one length beyond
/// the one before it.
pub proof fn edges_add_up_the_lengths(lengths: Seq<Pt>, i: int)
    requires
        0 <= i < lengths.len(),
    ensures
        pptx_table::edges(lengths).len() == lengths.len() + 1,
        pptx_table::edges(lengths)[0].emu == 0,
        pptx_table::edges(lengths)[i + 1].emu == units::sat(
            pptx_table::edges(lengths)[i].emu + lengths[i].emu,
        ),
{
}

/// A row is as high as was declared, or else just as high as some cell needs that
/// stands in it alone.
pub proof fn rows_grow_no_more_than_needed(
    declared: Seq<Pt>,
    cells: Seq<CellLayout>,
    n: int,
    r: int,
)
    requires
        0 <= n <= cells.len(),
        0 <= r < declared.len(),
    ensures
        ({
            let h = pptx_table::grown(declared, cells, n);
            &&& h.len() == declared.len()
            &&& declared[r].emu <= h[r].emu
            &&& h[r] == declared[r] || exists|i: int|
                0 <= i < n && (#[trigger] cells[i]).row == r && cells[i].row_span == 1
                    && cells[i].needed == h[r]
            &&& forall|i: int|
                0 <= i < n && (#[trigger] cells[i]).row == r && cells[i].row_span == 1
                    ==> cells[i].needed.emu <= h[r].emu
        }),
    decreases n,
{
    if n > 0 {
        rows_grow_no_more_than_needed(declared, cells, n - 1, r);
        let c = cells[n - 1];
        let before = pptx_table::grown(declared, cells, n - 1);
        if c.row == r && c.row_span == 1 {
            if before[r].emu < c.needed.emu {
                assert(cells[n - 1].needed == pptx_table::grown(declared, cells, n)[r]);
            }
        }
    }
}

/// The heights of rows are those declared, as far as they are more than nought.
pub proof fn rows_have_their_declared_height(rows: Seq<TableRow>, r: int)
    requires
        0 <= r < rows.len(),
    ensures
        pptx_table::declared_heights(rows).len() == rows.len(),
        rows[r].height matches Some(h) ==> h > 0 ==> pptx_table::declared_heights(rows)[r].emu == h,
        rows[r].height is None || rows[r].height->0 <= 0 ==> pptx_table::declared_heights(
            rows,
        )[r].emu == 0,
{
}

/// The columns of a table are as wide as its grid says.
pub proof fn columns_are_as_wide_as_the_grid(grid: Seq<i64>, i: int)
    requires
        0 <= i < grid.len(),
    ensures
        pptx_table::grid_lengths(grid).len() == grid.len(),
        pptx_table::grid_lengths(grid)[i].emu == grid[i],
{
}

/// The columns that a cell takes: as many as it spans, and at least one.
pub open spec fn columns_taken(c: TableCell) -> int {
    if c.grid_span == 0 {
        1
    } else {
        c.grid_span as int
    }
}

/// The cells of a row stand side by side: each begins in the column behind those
/// that the cells before it take.
pub proof fn cells_stand_side_by_side(cells: Seq<TableCell>, n: int)
    requires
        0 <= n < cells.len(),
    ensures
        pptx_table::columns_before(cells, 0) == 0,
        pptx_table::columns_before(cells, n + 1) == pptx_table::columns_before(cells, n)
            + columns_taken(cells[n]),
{
}

/// A cell is laid out where it has text, belongs to no other cell, and begins in a
/// column of the table that leaves it some width: from the left edge of its first
/// column to the right edge of its last, or of the table's.
pub proof fn cells_reach_over_their_columns(
    cells: Seq<TableCell>,
    row: usize,
    col_edges: Seq<Pt>,
    n: int,
)
    requires
        0 < n <= cells.len(),
        0 < col_edges.len(),
    ensures
        ({
            let before = pptx_table::row_cells(cells, row, col_edges, n - 1);
            let after = pptx_table::row_cells(cells, row, col_edges, n);
            let c = cells[n - 1];
            let last = col_edges.len() - 1;
            let first = pptx_table::columns_before(cells, n - 1);
            let end = if first + columns_taken(c) < last {
                first + columns_taken(c)
            } else {
                last
            };
            let width = units::sat(col_edges[end].emu - col_edges[first].emu);
            let placed = !c.absorbed && c.text is Some && first < last && width > 0;
            &&& pptx_table::row_cells(cells, row, col_edges, 0).len() == 0
            &&& !placed ==> after == before
            &&& placed ==> {
                &&& after.len() == before.len() + 1
                &&& after.take(before.len() as int) == before
                &&& after.last().row == row
                &&& after.last().row_span == (if c.row_span == 0 {
                    1
                } else {
                    c.row_span as int
                })
                &&& after.last().left == col_edges[first]
                &&& after.last().width.emu == width
                &&& after.last().needed == c.text->0.needed
                &&& after.last().body == c.text->0.body
            }
        }),
{
    let before = pptx_table::row_cells(cells, row, col_edges, n - 1);
    let after = pptx_table::row_cells(cells, row, col_edges, n);
    if after != before {
        assert(after.take(before.len() as int) =~= before);
    }
}

/// The cells of a table are those of its rows, from the top down, each with the
/// number of its row.
pub proof fn tables_are_laid_out_row_by_row(rows: Seq<TableRow>, col_edges: Seq<Pt>, n: int)
    requires
        0 < n <= rows.len() <= usize::MAX,
    ensures
        pptx_table::table_cells(rows, col_edges, 0).len() == 0,
        pptx_table::table_cells(rows, col_edges, n) == pptx_table::table_cells(
            rows,
            col_edges,
            n - 1,
        ) + pptx_table::row_cells(
            rows[n - 1].cells@,
            (n - 1) as usize,
            col_edges,
            rows[n - 1].cells@.len() as int,
        ),
{
}

/// A cell stands at the left edge of its columns and the top edge of its row, and
/// reaches down over the rows that it spans, as far as the table goes.
pub proof fn cells_reach_over_their_rows(cell: CellLayout, row_edges: Seq<Pt>)
    requires
        cell.row < row_edges.len(),
    ensures
        ({
            let o = pptx_table::cell_offset(cell, row_edges);
            let e = pptx_table::cell_extent(cell, row_edges);
            let last = row_edges.len() - 1;
            let end = if cell.row + cell.row_span < last {
                cell.row + cell.row_span
            } else {
                last
            };
            &&& o.x == cell.left
            &&& o.y == row_edges[cell.row as int]
            &&& e.width == cell.width
            &&& e.height.emu == units::sat(row_edges[end].emu - row_edges[cell.row as int].emu)
        }),
{
}

/// A cell with text that has no width is counted as not placed; of a cell with a
/// place its runs are counted.
pub proof fn cells_without_width_are_counted(
    t: SlideTally,
    cells: Seq<TableCell>,
    col_edges: Seq<Pt>,
    n: int,
    background: Option<u32>,
)
    requires
        0 < n <= cells.len(),
        0 < col_edges.len(),
    ensures
        ({
            let before = pptx_table::row_tally(t, cells, col_edges, n - 1, background);
            let after = pptx_table::row_tally(t, cells, col_edges, n, background);
            let c = cells[n - 1];
            let last = col_edges.len() - 1;
            let first = pptx_table::columns_before(cells, n - 1);
            let end = if first + columns_taken(c) < last {
                first + columns_taken(c)
            } else {
                last
            };
            let wide = units::sat(col_edges[end].emu - col_edges[first].emu) > 0;
            let stands = !c.absorbed && c.text is Some && first < last;
            &&& stands && wide ==> after == pptx_paint::run_tallies(
                before,
                c.text->0.body.colors@,
                c.text->0.body.colors@.len() as int,
                background,
            )
            &&& !(stands && wide) ==> counted(
                before.unplaced_table_cells,
                after.unplaced_table_cells,
                stands && !c.text->0.empty,
            ) && after == (SlideTally {
                unplaced_table_cells: after.unplaced_table_cells,
                ..before
            })
        }),
{
}

/// A table without a place counts each of its cells that says something.
pub proof fn tables_without_a_place_count_their_text(cells: Seq<TableCell>, n: int)
    requires
        0 < n <= cells.len(),
    ensures
        pptx_table::row_text_cells(cells, 0) == 0,
        pptx_table::row_text_cells(cells, n) == pptx_table::row_text_cells(cells, n - 1) + (
        if !cells[n - 1].absorbed && cells[n - 1].text is Some && !cells[n - 1].text->0.empty {
            1int
        } else {
            0
        }),
{
}

// ── Text ───────────────────────────────────────────────────────────────

/// The body of a shape is placed where the shape has a place and an area and the
/// body draws something: in the shape's own frame, in the box that its geometry
/// leaves for text.
pub proof fn bodies_stand_in_the_frame_of_their_shape(
    slide_rect: Option<SlideRect>,
    geometry: Option<ShapeGeometry>,
    body: BodyLayout,
)
    ensures
        ({
            let r = pptx_text::bodies_of(TextShape::Body { slide_rect, geometry, body });
            let placed = slide_rect is Some && slide_rect->0.rect.size.width.emu > 0
                && slide_rect->0.rect.size.height.emu > 0 && body.commands@.len() > 0;
            &&& !placed ==> r.len() == 0
            &&& placed ==> {
                let s = slide_rect->0;
                let inner = pptx_shapes::body_box(geometry, s.rect.size);
                &&& r.len() == 1
                &&& r[0].kind == PlacementKind::Shape
                &&& r[0].frame.origin == s.rect.origin
                &&& r[0].frame.extent == s.rect.size
                &&& r[0].frame.rotation == s.rotation
                &&& r[0].frame.direction == s.direction
                &&& r[0].offset == inner.origin
                &&& r[0].extent == inner.size
                &&& r[0].shrunk == body.shrunk
                &&& r[0].commands == body.commands@
                &&& r[0].runs == body.runs@
            }
        }),
{
}

/// A group has the bodies of its children, in order; a diagram and anything else
/// has none.
pub proof fn groups_have_the_bodies_of_their_children(children: Vec<TextShape>)
    ensures
        pptx_text::bodies_of(TextShape::Group(children)) == pptx_text::bodies_in(
            children@,
            children@.len() as int,
        ),
        pptx_text::bodies_of(TextShape::Diagram).len() == 0,
        pptx_text::bodies_of(TextShape::Other).len() == 0,
{
}

proof fn lemma_bodies_prefix(a: Seq<TextShape>, b: Seq<TextShape>, n: int)
    requires
        0 <= n <= a.len(),
    ensures
        pptx_text::bodies_in(a + b, n) == pptx_text::bodies_in(a, n),
    decreases n,
{
    if n > 0 {
        lemma_bodies_prefix(a, b, n - 1);
        assert((a + b)[n - 1] == a[n - 1]);
    }
}

/// Bodies are placed in the order of their shapes.
pub proof fn bodies_are_placed_in_order(a: Seq<TextShape>, b: Seq<TextShape>, n: int)
    requires
        0 <= n <= b.len(),
    ensures
        pptx_text::bodies_in(a + b, a.len() + n) == pptx_text::bodies_in(a, a.len() as int)
            + pptx_text::bodies_in(b, n),
    decreases n,
{
    let all = pptx_text::bodies_in(a, a.len() as int);
    if n > 0 {
        bodies_are_placed_in_order(a, b, n - 1);
        assert((a + b)[a.len() + n - 1] == b[n - 1]);
        assert(pptx_text::bodies_in(a + b, a.len() + n) =~= all + pptx_text::bodies_in(b, n));
    } else {
        lemma_bodies_prefix(a, b, a.len() as int);
        assert(all + pptx_text::bodies_in(b, 0) =~= all);
    }
}

/// The cells of a table that draw something are placed in the table's frame, each in
/// its own box, in the order of the cells, and never shrunk.
pub proof fn cells_are_placed_in_their_box(
    cells: Seq<CellLayout>,
    row_edges: Seq<Pt>,
    frame: Frame,
    n: int,
)
    requires
        0 < n <= cells.len(),
    ensures
        ({
            let before = pptx_text::cell_bodies(cells, row_edges, frame, n - 1);
            let after = pptx_text::cell_bodies(cells, row_edges, frame, n);
            let c = cells[n - 1];
            &&& pptx_text::cell_bodies(cells, row_edges, frame, 0).len() == 0
            &&& c.body.commands@.len() == 0 ==> after == before
            &&& c.body.commands@.len() > 0 ==> {
                &&& after.len() == before.len() + 1
                &&& after.take(before.len() as int) == before
                &&& after.last().kind == PlacementKind::TableCell
                &&& after.last().frame == frame
                &&& after.last().offset.x == c.left
                &&& after.last().offset.y == row_edges[c.row as int]
                &&& after.last().extent.width == c.width
                &&& !after.last().shrunk
                &&& after.last().commands == c.body.commands@
                &&& after.last().runs == c.body.runs@
            }
        }),
{
    let before = pptx_text::cell_bodies(cells, row_edges, frame, n - 1);
    let after = pptx_text::cell_bodies(cells, row_edges, frame, n);
    if after != before {
        assert(after.take(before.len() as int) =~= before);
    }
}

/// A table has bodies only where it has a place and a grid of some width; its frame
/// is the table's own box.
pub proof fn tables_are_placed_in_their_own_frame(slide_rect: Option<SlideRect>, table: Table)
    ensures
        ({
            let r = pptx_text::table_bodies(slide_rect, table);
            let edges = pptx_table::edges(pptx_table::grid_lengths(table.grid@));
            let wide = table.grid@.len() > 0 && edges.last().emu > 0;
            &&& slide_rect is None || !wide ==> r.len() == 0
            &&& slide_rect matches Some(s) ==> forall|k: int|
                0 <= k < r.len() ==> (#[trigger] r[k]).frame.origin == s.rect.origin
                    && r[k].frame.extent == s.rect.size && r[k].frame.rotation == s.rotation
                    && r[k].kind == PlacementKind::TableCell
        }),
{
    if let Some(s) = slide_rect {
        let edges = pptx_table::edges(pptx_table::grid_lengths(table.grid@));
        let cells = pptx_table::table_cells(table.rows@, edges, table.rows@.len() as int);
        lemma_cell_frames(
            cells,
            pptx_table::row_edges_of(table),
            Frame::spec_new(s, s.rect.size),
            cells.len() as int,
        );
    }
}

proof fn lemma_cell_frames(cells: Seq<CellLayout>, row_edges: Seq<Pt>, frame: Frame, n: int)
    requires
        0 <= n <= cells.len(),
    ensures
        forall|k: int|
            0 <= k < pptx_text::cell_bodies(cells, row_edges, frame, n).len() ==> (
            #[trigger] pptx_text::cell_bodies(cells, row_edges, frame, n)[k]).frame == frame
                && pptx_text::cell_bodies(cells, row_edges, frame, n)[k].kind
                == PlacementKind::TableCell,
    decreases n,
{
    if n > 0 {
        lemma_cell_frames(cells, row_edges, frame, n - 1);
    }
}

/// A body is drawn between brackets that carry it to its place: turned as its frame
/// is, mirrored neither way, with its own commands between them.
pub proof fn bodies_are_drawn_between_their_brackets(b: PlacedBody)
    ensures
        ({
            let r = b.bracketed();
            let n = b.commands.len() as int;
            &&& r.len() == n + 2
            &&& r[0] matches DrawCommand::Transform(TransformMark::Begin(t))
            &&& t.origin == b.frame.placed_at(b.offset, b.extent)
            &&& t.rotation == b.frame.rotation
            &&& !t.flip_h && !t.flip_v
            &&& t.extent.width == b.extent.width && t.extent.height == b.extent.height
            &&& r.subrange(1, n + 1) == b.commands
            &&& r[n + 1] == DrawCommand::Transform(TransformMark::End)
        }),
{
    let n = b.commands.len() as int;
    assert(b.bracketed().subrange(1, n + 1) =~= b.commands);
}

/// A placement tells of a body its box on the slide, how far its text is turned back,
/// whether it was shrunk, and which items are its own.
pub proof fn placements_tell_of_their_body(
    bodies: Seq<PlacedBody>,
    k: int,
    items: int,
    commands: int,
)
    requires
        0 <= k < bodies.len(),
        0 <= items + pptx_text::items_before(bodies, k) <= usize::MAX,
        0 <= items + pptx_text::items_before(bodies, k + 1) <= usize::MAX,
        0 <= commands + pptx_text::body_commands(bodies, k).len() <= usize::MAX,
    ensures
        ({
            let p = pptx_text::placement_of(bodies, k, items, commands);
            let b = bodies[k];
            &&& p.kind == b.kind
            &&& p.rect.x.emu == units::sat(b.frame.origin.x.emu + b.offset.x.emu)
            &&& p.rect.y.emu == units::sat(b.frame.origin.y.emu + b.offset.y.emu)
            &&& p.rect.width == b.extent.width
            &&& p.rect.height == b.extent.height
            &&& p.rotation.units == units::sat(-b.frame.rotation.units)
            &&& p.shrunk == b.shrunk
            &&& p.end_item - p.first_item == b.item_count()
            &&& p.first_item == items + pptx_text::items_before(bodies, k)
            &&& p.bracket == commands + pptx_text::body_commands(bodies, k).len()
        }),
{
}

/// The items of bodies follow each other: those of a body begin where those of the
/// bodies before it end.
pub proof fn items_of_bodies_follow_each_other(bodies: Seq<PlacedBody>, n: int)
    requires
        0 < n <= bodies.len(),
    ensures
        pptx_text::items_before(bodies, 0) == 0,
        pptx_text::items_before(bodies, n) == pptx_text::items_before(bodies, n - 1)
            + bodies[n - 1].item_count(),
        pptx_text::body_commands(bodies, 0).len() == 0,
        pptx_text::body_commands(bodies, n) == pptx_text::body_commands(bodies, n - 1)
            + bodies[n - 1].bracketed(),
{
}

/// Every body of a shape is noted, and a cell's only where it says something, in
/// order.
pub proof fn bodies_are_noted_in_order(bodies: Seq<PlacedBody>, n: int, items: int, commands: int)
    requires
        0 < n <= bodies.len(),
    ensures
        ({
            let before = pptx_text::placements_of(bodies, n - 1, items, commands);
            let after = pptx_text::placements_of(bodies, n, items, commands);
            let b = bodies[n - 1];
            &&& pptx_text::placements_of(bodies, 0, items, commands).len() == 0
            &&& b.kind == PlacementKind::Shape || b.item_count() > 0 ==> after == before.push(
                pptx_text::placement_of(bodies, n - 1, items, commands),
            )
            &&& b.kind == PlacementKind::TableCell && b.item_count() <= 0 ==> after == before
        }),
{
}

/// Text that is not placed is counted: a diagram once; a body and a table of a slide
/// that have a place count their runs.
pub proof fn text_is_counted_by_its_shape(
    t: SlideTally,
    slide_rect: Option<SlideRect>,
    geometry: Option<ShapeGeometry>,
    body: BodyLayout,
    background: Option<u32>,
)
    ensures
        ({
            let u = pptx_text::text_tally(t, TextShape::Diagram, background);
            &&& counted(t.unplaced_diagram_bodies, u.unplaced_diagram_bodies, true)
            &&& u == (SlideTally { unplaced_diagram_bodies: u.unplaced_diagram_bodies, ..t })
            &&& pptx_text::text_tally(t, TextShape::Other, background) == t
            &&& pptx_text::text_tally(
                t,
                TextShape::Body { slide_rect, geometry, body },
                background,
            ) == (if slide_rect is Some && slide_rect->0.rect.size.width.emu > 0
                && slide_rect->0.rect.size.height.emu > 0 {
                pptx_paint::run_tallies(t, body.colors@, body.colors@.len() as int, background)
            } else {
                t
            })
        }),
{
}

// ── Slides ─────────────────────────────────────────────────────────────

/// A slide is drawn from the back to the front: its background, the shapes that it
/// inherits, its own shapes, and its text.
pub proof fn slides_are_drawn_from_back_to_front(
    commands: Seq<DrawCommand>,
    background: Option<usize>,
    slide: SlideInput,
    page_size: PtSize,
)
    requires
        pptx_layout::draws_slide(commands, background, slide, page_size),
    ensures
        ({
            let inherited = pptx_layout::rung_list(
                slide.inherited@,
                slide.inherited@.len() as int,
            );
            let own = pptx_paint::painted_list(slide.shapes@, slide.shapes@.len() as int, None);
            let bodies = pptx_layout::read_bodies(slide.reading@, slide.reading@.len() as int);
            let (i, o) = (inherited.len() as int, own.len() as int);
            let at = if background is Some {
                1int
            } else {
                0
            };
            &&& background matches Some(b) ==> b == 0 && pptx_paint::is_backdrop(
                commands[0],
                slide.background->0.fill@,
                page_size,
            )
            &&& background is Some <==> slide.background is Some && !(
            slide.background->0.fill@ is NoFill) && page_size.width.emu > 0 && page_size.height.emu
                > 0
            &&& forall|k: int|
                0 <= k < i ==> pptx_paint::is_shape_path(
                    #[trigger] commands[at + k],
                    inherited[k].0,
                    inherited[k].1,
                )
            &&& forall|k: int|
                0 <= k < o ==> pptx_paint::is_shape_path(
                    #[trigger] commands[at + i + k],
                    own[k].0,
                    own[k].1,
                )
            &&& commands.skip(at + i + o) == pptx_text::body_commands(bodies, bodies.len() as int)
        }),
{
    let inherited = pptx_layout::rung_list(slide.inherited@, slide.inherited@.len() as int);
    let own = pptx_paint::painted_list(slide.shapes@, slide.shapes@.len() as int, None);
    let (i, o) = (inherited.len() as int, own.len() as int);
    let at = if background is Some {
        1int
    } else {
        0
    };
    let list = pptx_layout::ink_list(slide);
    let drawn = commands.subrange(at, at + list.len());
    assert forall|k: int| 0 <= k < i implies pptx_paint::is_shape_path(
        #[trigger] commands[at + k],
        inherited[k].0,
        inherited[k].1,
    ) by {
        assert(drawn[k] == commands[at + k] && list[k] == inherited[k]);
    }
    assert forall|k: int| 0 <= k < o implies pptx_paint::is_shape_path(
        #[trigger] commands[at + i + k],
        own[k].0,
        own[k].1,
    ) by {
        assert(drawn[i + k] == commands[at + i + k] && list[i + k] == own[k]);
    }
}

/// What a slide inherits is painted rung by rung, the lowest first, and no group of
/// the slide's lends it a fill.
pub proof fn inherited_shapes_are_painted_rung_by_rung(rungs: Seq<Vec<PaintShape>>, n: int)
    requires
        0 < n <= rungs.len(),
    ensures
        pptx_layout::rung_list(rungs, 0).len() == 0,
        pptx_layout::rung_list(rungs, n) == pptx_layout::rung_list(rungs, n - 1)
            + pptx_paint::painted_list(rungs[n - 1]@, rungs[n - 1]@.len() as int, None),
{
}

/// The text of a slide is laid out in reading order.
pub proof fn text_is_laid_out_in_reading_order(reading: Seq<ReadShape>, n: int)
    requires
        0 < n <= reading.len(),
    ensures
        pptx_layout::read_bodies(reading, 0).len() == 0,
        pptx_layout::read_bodies(reading, n) == pptx_layout::read_bodies(reading, n - 1)
            + pptx_text::bodies_of(reading[n - 1].shape),
{
}

/// A slide is a page of its own with the size of the deck: numbered from one, without
/// annotations, bounded by its text; one that could not be read is an empty page.
pub proof fn slides_are_pages_of_the_deck(
    page: Page,
    layout: LayoutedPage,
    placements: Seq<ShapePlacement>,
    background: Option<usize>,
    slide: Option<SlideInput>,
    index: int,
    page_size: PtSize,
)
    requires
        pptx_layout::is_slide(page, layout, placements, background, slide, index, page_size),
    ensures
        page.page_number == index + 1,
        page.page_width == page_size.width,
        page.page_height == page_size.height,
        layout.page_size.width == page_size.width,
        layout.page_size.height == page_size.height,
        page.annotations is None,
        page.content_bounds == docx_layout::item_bounds(page.text_items@),
        slide is None ==> page.text_items@.len() == 0 && layout.commands@.len() == 0
            && placements.len() == 0 && background is None,
{
}

/// A slide that shows nothing of its master or its layout is counted for it, and
/// nothing else is counted for that.
pub proof fn declined_masters_are_counted(
    t: SlideTally,
    slide: SlideInput,
    page_size: PtSize,
)
    ensures
        ({
            let u = pptx_layout::slide_tally(t, Some(slide), page_size);
            let read = pptx_layout::read_tally(
                pptx_paint::paint_tallies(
                    pptx_layout::rung_tally(
                        pptx_paint::background_tally(t, slide.background, page_size),
                        slide.inherited@,
                        slide.inherited@.len() as int,
                    ),
                    slide.shapes@,
                    slide.shapes@.len() as int,
                    Rung::Slide,
                    None,
                ),
                slide.reading@,
                slide.reading@.len() as int,
                pptx_paint::background_color(slide.background, page_size),
            );
            &&& counted(
                read.slides_declining_master,
                u.slides_declining_master,
                slide.declines_master,
            )
            &&& counted(
                read.slides_declining_layout,
                u.slides_declining_layout,
                slide.declines_layout,
            )
            &&& u == (SlideTally {
                slides_declining_master: u.slides_declining_master,
                slides_declining_layout: u.slides_declining_layout,
                ..read
            })
            &&& pptx_layout::slide_tally(t, None, page_size) == t
        }),
{
}

/// Text that a slide inherits is counted when it is laid out, unless it belongs to a
/// figure.
pub proof fn inherited_text_is_counted(
    t: SlideTally,
    reading: Seq<ReadShape>,
    n: int,
    background: Option<u32>,
)
    requires
        0 < n <= reading.len(),
        reading[n - 1].shape is Other,
    ensures
        ({
            let before = pptx_layout::read_tally(t, reading, n - 1, background);
            let after = pptx_layout::read_tally(t, reading, n, background);
            let r = reading[n - 1];
            &&& counted(
                before.inherited_text_laid_out,
                after.inherited_text_laid_out,
                r.inherited && !r.figure,
            )
            &&& after == (SlideTally {
                inherited_text_laid_out: after.inherited_text_laid_out,
                ..before
            })
        }),
{
}

/// The boxes of a page's images are those of the paths that are filled with one, in
/// order.
pub proof fn image_boxes_are_those_of_filled_paths(cmds: Seq<DrawCommand>, n: int)
    requires
        0 < n <= cmds.len(),
    ensures
        ({
            let before = pptx_layout::blip_rects(cmds, n - 1);
            let after = pptx_layout::blip_rects(cmds, n);
            let c = cmds[n - 1];
            let filled = c is Path && c->Path_fill is Blip;
            &&& pptx_layout::blip_rects(cmds, 0).len() == 0
            &&& !filled ==> after == before
            &&& filled ==> {
                &&& after.len() == before.len() + 1
                &&& after.take(before.len() as int) == before
                &&& after.last().x == c->Path_origin.x
                &&& after.last().y == c->Path_origin.y
                &&& after.last().width == c->Path_extent.width
                &&& after.last().height == c->Path_extent.height
            }
        }),
{
    let before = pptx_layout::blip_rects(cmds, n - 1);
    let after = pptx_layout::blip_rects(cmds, n);
    if after != before {
        assert(after.take(before.len() as int) =~= before);
    }
}

/// The box of a cell is told with the cell's row and number, and with its place and size
/// in the table.
pub proof fn boxes_tell_their_cell(
    b: CellBox,
    c: CellLayout,
    rows: Seq<TableRow>,
    row_edges: Seq<Pt>,
)
    requires
        pptx_table::is_cell_box(b, c, rows, row_edges),
    ensures
        b.row == c.row,
        b.row < rows.len(),
        b.cell < rows[b.row as int].cells@.len(),
        rows[b.row as int].cells@[b.cell as int].text matches Some(t) && t.body == c.body,
        b.offset.x == c.left,
        b.offset.y == row_edges[c.row as int],
        b.extent.width == c.width,
{
}

}
