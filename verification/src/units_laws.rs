//! What lengths, directions, boxes and shifted commands come to.
use crate::draw_command::DrawCommand;
use crate::geometry::{PtLineSegment, PtOffset, PtRect, Rect};
use crate::units;
use crate::units::Pt;
use vstd::prelude::*;

verus! {

/// Lengths add, subtract and compare as their numbers do, as far as those can be held.
pub proof fn lengths_are_counted_as_numbers(a: Pt, b: Pt)
    ensures
        units::fits(a.emu + b.emu) ==> a.spec_plus(b).emu == a.emu + b.emu,
        units::fits(a.emu - b.emu) ==> a.spec_minus(b).emu == a.emu - b.emu,
        a.emu + b.emu > i64::MAX ==> a.spec_plus(b).emu == i64::MAX,
        a.emu + b.emu < i64::MIN ==> a.spec_plus(b).emu == i64::MIN,
        a.emu - b.emu > i64::MAX ==> a.spec_minus(b).emu == i64::MAX,
        a.emu - b.emu < i64::MIN ==> a.spec_minus(b).emu == i64::MIN,
        a.spec_min(b).emu <= a.emu && a.spec_min(b).emu <= b.emu,
        a.spec_min(b) == a || a.spec_min(b) == b,
        a.spec_max(b).emu >= a.emu && a.spec_max(b).emu >= b.emu,
        a.spec_max(b) == a || a.spec_max(b) == b,
        Pt::spec_zero().emu == 0,
{
}

/// A point is twelve thousand seven hundred units, and a number of units is held to what
/// can be counted.
pub proof fn points_are_counted_in_units(x: int)
    ensures
        units::EMU_PER_POINT == 12_700,
        units::CENTIPOINT == 127,
        i64::MIN <= x <= i64::MAX ==> units::pt(x).emu == x,
        x > i64::MAX ==> units::pt(x).emu == i64::MAX,
        x < i64::MIN ==> units::pt(x).emu == i64::MIN,
{
}

/// Halves in fixed point are rounded to the nearest whole number, a half upwards.
pub proof fn fixed_point_is_rounded_to_the_nearest(v: int)
    ensures
        2147483648 * units::round_half_q30(v) - 1073741824 <= v < 2147483648
            * units::round_half_q30(v) + 1073741824,
{
}

/// Each quarter turn carries a direction on to the next: right to down, down to left,
/// left to up.
pub proof fn quarter_turns_follow_each_other(n: int)
    requires
        0 <= n < 3,
    ensures
        ({
            let d = units::right_angle_direction(n);
            let e = units::right_angle_direction(n + 1);
            &&& e.sin == d.cos
            &&& e.cos == -d.sin
            &&& units::right_angle_direction(0).sin == 0
            &&& units::right_angle_direction(0).cos == 1073741824
        }),
{
}

/// Moving a point, a box or a line moves it as far right and down as is said, and
/// changes no size.
pub proof fn moves_go_right_and_down(
    p: PtOffset,
    r: PtRect,
    l: PtLineSegment,
    dx: Pt,
    dy: Pt,
)
    ensures
        p.spec_shifted(dx, dy).x.emu == units::sat(p.x.emu + dx.emu),
        p.spec_shifted(dx, dy).y.emu == units::sat(p.y.emu + dy.emu),
        r.spec_shifted(dx, dy).origin.x.emu == units::sat(r.origin.x.emu + dx.emu),
        r.spec_shifted(dx, dy).origin.y.emu == units::sat(r.origin.y.emu + dy.emu),
        r.spec_shifted(dx, dy).size.width == r.size.width,
        r.spec_shifted(dx, dy).size.height == r.size.height,
        l.spec_shifted(dx, dy).start.x.emu == units::sat(l.start.x.emu + dx.emu),
        l.spec_shifted(dx, dy).start.y.emu == units::sat(l.start.y.emu + dy.emu),
        l.spec_shifted(dx, dy).end.x.emu == units::sat(l.end.x.emu + dx.emu),
        l.spec_shifted(dx, dy).end.y.emu == units::sat(l.end.y.emu + dy.emu),
{
}

/// A box laid flat keeps its corner and its sides, and ends where they lead.
pub proof fn flat_boxes_keep_their_corner_and_sides(r: PtRect, b: Rect)
    ensures
        r.spec_flat().x == r.origin.x,
        r.spec_flat().y == r.origin.y,
        r.spec_flat().width == r.size.width,
        r.spec_flat().height == r.size.height,
        b.spec_right().emu == units::sat(b.x.emu + b.width.emu),
        b.spec_bottom().emu == units::sat(b.y.emu + b.height.emu),
{
}

/// A command reaches from its top to its bottom: a text its size above and below its
/// baseline, a line from its higher to its lower end, an image, an emoji, an area and a
/// shape over its own height.
pub proof fn commands_reach_from_top_to_bottom(c: DrawCommand)
    ensures
        match c {
            DrawCommand::Text { position, font_size, .. } => c.band() matches Some(b) && b.0.emu
                == units::sat(position.y.emu - font_size.emu) && b.1.emu == units::sat(
                position.y.emu + font_size.emu,
            ),
            DrawCommand::Underline { line, .. } => c.band() matches Some(b) && b.0.emu <= b.1.emu
                && (b == (line.start.y, line.end.y) || b == (line.end.y, line.start.y)),
            DrawCommand::Line { line, .. } => c.band() matches Some(b) && b.0.emu <= b.1.emu && (b
                == (line.start.y, line.end.y) || b == (line.end.y, line.start.y)),
            DrawCommand::Image { rect, .. } => c.band() matches Some(b) && b.0 == rect.origin.y
                && b.1.emu == units::sat(rect.origin.y.emu + rect.size.height.emu),
            DrawCommand::EmojiCluster { rect, .. } => c.band() matches Some(b) && b.0
                == rect.origin.y && b.1.emu == units::sat(
                rect.origin.y.emu + rect.size.height.emu,
            ),
            DrawCommand::Rect { rect, .. } => c.band() matches Some(b) && b.0 == rect.origin.y
                && b.1.emu == units::sat(rect.origin.y.emu + rect.size.height.emu),
            DrawCommand::Path { origin, extent, .. } => c.band() matches Some(b) && b.0 == origin.y
                && b.1.emu == units::sat(origin.y.emu + extent.height.emu),
            _ => c.band() is None,
        },
{
}

/// A command that is moved says and shows what it did, in the same sizes and colours.
pub proof fn moved_commands_show_the_same(c: DrawCommand, dx: Pt, dy: Pt)
    ensures
        ({
            let m = c.shifted(dx, dy);
            &&& c is Text ==> m is Text && m->Text_text == c->Text_text && m->Text_font_family
                == c->Text_font_family && m->Text_font_size == c->Text_font_size && m->Text_bold
                == c->Text_bold && m->Text_italic == c->Text_italic && m->Text_color
                == c->Text_color && m->Text_char_spacing == c->Text_char_spacing
                && m->Text_text_scale == c->Text_text_scale
            &&& c is Underline ==> m is Underline && m->Underline_color == c->Underline_color
                && m->Underline_width == c->Underline_width
            &&& c is Line ==> m is Line && m->Line_color == c->Line_color && m->Line_width
                == c->Line_width
            &&& c is Image ==> m is Image && m->Image_image_data == c->Image_image_data
                && m->Image_src_rect == c->Image_src_rect && m->Image_float == c->Image_float
            &&& c is EmojiCluster ==> m is EmojiCluster && m->EmojiCluster_text
                == c->EmojiCluster_text && m->EmojiCluster_size == c->EmojiCluster_size
                && m->EmojiCluster_typeface == c->EmojiCluster_typeface
            &&& c is Rect ==> m is Rect && m->Rect_color == c->Rect_color
            &&& c is LinkAnnotation ==> m is LinkAnnotation && m->LinkAnnotation_url
                == c->LinkAnnotation_url && m->LinkAnnotation_target == c->LinkAnnotation_target
            &&& c is InternalLink ==> m is InternalLink && m->InternalLink_destination
                == c->InternalLink_destination && m->InternalLink_target == c->InternalLink_target
            &&& c is NamedDestination ==> m is NamedDestination && m->NamedDestination_name
                == c->NamedDestination_name
            &&& c is Path ==> m is Path && m->Path_rotation == c->Path_rotation && m->Path_flip_h
                == c->Path_flip_h && m->Path_flip_v == c->Path_flip_v && m->Path_extent
                == c->Path_extent && m->Path_paths == c->Path_paths && m->Path_fill == c->Path_fill
                && m->Path_stroke == c->Path_stroke && m->Path_effects == c->Path_effects
            &&& c is Outline || c is Float ==> m == c
        }),
{
}

}
