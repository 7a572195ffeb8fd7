//! What the facts of a PDF document, its screenshots and the order of its parsing keep
//! of what was read and asked for.
use crate::config::LiteParseConfig;
use crate::document;
use crate::document::{
    Bookmark, ByteRange, CopyAction, CopyEvent, CopyState, OutlineEntry, PacketReading,
    TextReading, XfaPacket,
};
use crate::flow;
use crate::flow::{
    ExtractPlan, OfficeKind, ParseAction, ParseContext, ParseEvent, ParseState, RenderPlan,
    ShotAction, ShotEvent, ShotState,
};
use crate::parser::{LiteParseError, OcrChoice, ScreenshotResult};
use crate::raster::RasterPage;
use crate::screenshots;
use crate::screenshots::Painter;
use crate::text;
use crate::types;
use crate::types::ScreenshotRect;
use vstd::prelude::*;

verus! {

// ── Text and bookmarks ─────────────────────────────────────────────────

/// A text that was read is that of its units, two bytes each, without the zero that
/// ends them; a zero anywhere else stays.
pub proof fn read_text_ends_before_its_zero(r: TextReading)
    requires
        r.ok(),
        r.written >= 2,
    ensures
        ({
            let n = r.written as int / 2;
            &&& r.units@[n - 1] == 0 ==> r.spec_text() == text::utf16_text(r.units@.take(n - 1))
            &&& r.units@[n - 1] != 0 ==> r.spec_text() == text::utf16_text(r.units@.take(n))
        }),
{
}

/// A bookmark leads where it says itself, and only without that where its action does:
/// to a page that is there, and to a height where one is given.
pub proof fn bookmarks_lead_where_they_say(b: Bookmark)
    ensures
        b.dest is None && b.action_dest is None ==> document::dest_of(b).0 is None
            && document::dest_of(b).1 is None,
        b.dest matches Some(d) ==> document::dest_of(b).0 == (if d.page_index < 0 {
            None
        } else {
            Some(d.page_index)
        }) && document::dest_of(b).1 == (if d.located && d.has_y {
            Some(d.y)
        } else {
            None
        }),
        b.dest is None ==> (b.action_dest matches Some(d) ==> document::dest_of(b).0 == (
        if d.page_index < 0 {
            None
        } else {
            Some(d.page_index)
        }) && document::dest_of(b).1 == (if d.located && d.has_y {
            Some(d.y)
        } else {
            None
        })),
{
}

/// Bookmarks are listed as they are read: each before its children, those one level
/// down and in order, and all of them before the next bookmark.
pub proof fn bookmarks_are_listed_in_reading_order(
    b: Bookmark,
    level: u8,
    list: Seq<Bookmark>,
    n: int,
)
    requires
        0 < n <= list.len(),
        level < 255,
    ensures
        document::preorder(b, level).len() > 0,
        document::preorder(b, level)[0].0 == b,
        document::preorder(b, level)[0].1 == level,
        document::preorder(b, level).skip(1) == document::preorder_upto(
            b.children@,
            (level + 1) as u8,
            b.children@.len() as int,
        ),
        document::preorder_upto(list, level, 0).len() == 0,
        document::preorder_upto(list, level, n) == document::preorder_upto(list, level, n - 1)
            + document::preorder(list[n - 1], level),
{
    assert(document::preorder(b, level).skip(1) =~= document::preorder_upto(
        b.children@,
        (level + 1) as u8,
        b.children@.len() as int,
    ));
}

/// An entry of the outline has the level and the title of its bookmark and leads where
/// it leads.
pub proof fn outline_entries_tell_their_bookmark(
    out: Seq<OutlineEntry>,
    all: Seq<(Bookmark, u8)>,
    k: int,
)
    requires
        document::are_entries(out, all),
        0 <= k < out.len(),
    ensures
        out.len() == all.len(),
        out[k].level == all[k].1,
        out[k].title@ == all[k].0.title@,
        out[k].page_index == document::dest_of(all[k].0).0,
        out[k].y == document::dest_of(all[k].0).1,
{
    assert(document::is_entry(out[k], all[k].0, all[k].1));
}

// ── Signatures, packets and units ──────────────────────────────────────

/// A signature covers a file to its end where its last range, of a start and a length,
/// ends there or beyond; one with a negative number does not. Its ranges are known
/// where there are two to eight numbers.
pub proof fn signatures_cover_files_to_their_end(r: ByteRange, size: u64)
    requires
        2 <= r.len <= r.values@.len(),
    ensures
        ({
            let (start, length) = (r.values@[r.len - 2] as int, r.values@[r.len - 1] as int);
            document::range_falls_short(r, size) == !(start >= 0 && length >= 0 && start + length
                >= size)
        }),
        document::range_known(Some(r)) == (r.len <= 8),
        !document::range_known(None),
{
}

proof fn lemma_without_zeros(b: Seq<u8>) -> (n: int)
    ensures
        0 <= n <= b.len(),
        document::without_zeros(b) == b.take(n),
        n > 0 ==> b[n - 1] != 0,
        forall|i: int| n <= i < b.len() ==> #[trigger] b[i] == 0,
    decreases b.len(),
{
    if b.len() > 0 && b.last() == 0 {
        let n = lemma_without_zeros(b.drop_last());
        assert(b.drop_last().take(n) =~= b.take(n));
        assert forall|i: int| n <= i < b.len() implies #[trigger] b[i] == 0 by {
            if i < b.len() - 1 {
                assert(b[i] == b.drop_last()[i]);
            }
        }
        n
    } else {
        assert(b.take(b.len() as int) =~= b);
        b.len() as int
    }
}

/// A name loses the zeros at its end and nothing else.
pub proof fn names_lose_only_zeros_at_their_end(b: Seq<u8>)
    ensures
        exists|n: int|
            {
                &&& 0 <= n <= b.len()
                &&& document::without_zeros(b) == #[trigger] b.take(n)
                &&& n > 0 ==> b[n - 1] != 0
                &&& forall|i: int| n <= i < b.len() ==> #[trigger] b[i] == 0
            },
{
    let n = lemma_without_zeros(b);
    assert(document::without_zeros(b) == b.take(n));
}

/// A packet has its own number, a name where one was written, and the bytes of its
/// content, as many as were written, where they could be read.
pub proof fn packets_hold_what_was_read(p: XfaPacket, index: i32, r: PacketReading)
    requires
        document::is_packet(p, index, r),
    ensures
        p.index == index,
        p.name is Some <==> r.name_len > 0 && r.name_written > 0,
        p.content is Some <==> r.sized && r.content_len > 0 && r.content_ok,
        p.content matches Some(c) ==> {
            let n = if r.content_written < r.content@.len() {
                r.content_written as int
            } else {
                r.content@.len() as int
            };
            c@.len() == n && forall|i: int| 0 <= i < n ==> #[trigger] c@[i] == r.content@[i]
        },
{
}

/// A packet is given out with its number, its name and its content, and the length of
/// that in bytes.
pub proof fn packets_are_given_out_whole(p: XfaPacket, out: types::XfaPacket)
    requires
        document::is_given_out(p, out),
        p.index >= 0,
    ensures
        out.index == p.index,
        out.name == p.name,
        out.content is Some <==> p.content is Some,
        p.content is None ==> out.content_length == 0,
        p.content matches Some(c) ==> c@.len() <= u32::MAX ==> out.content_length == c@.len(),
{
}

/// The unit of a page is the one that it was asked for and says, never less than one;
/// where it could not be asked, the one noted for it, and one where none is.
pub proof fn units_are_those_of_their_page(
    asked: Option<Option<u64>>,
    table: Seq<u64>,
    index: i32,
)
    ensures
        ({
            let u = document::unit_of(asked, table, index);
            &&& asked matches Some(Some(v)) ==> (v >= 1_000_000 ==> u == v) && (v < 1_000_000
                ==> u == 1_000_000)
            &&& asked matches Some(None) ==> u == 1_000_000
            &&& asked is None && 0 <= index < table.len() ==> u == table[index as int]
            &&& asked is None && !(0 <= index < table.len()) ==> u == 1_000_000
        }),
{
}

// ── Widgets ────────────────────────────────────────────────────────────

/// A widget is seen where none of the flags for invisible, hidden and not to be viewed
/// is set; nothing but a widget is.
pub proof fn widgets_are_seen_without_their_flags(subtype: i32, flags: i32)
    ensures
        document::visible_widget(subtype, flags) == (subtype == 20 && flags & 1 == 0 && flags & 2
            == 0 && flags & 32 == 0),
{
    assert((flags & 35 == 0) == (flags & 1 == 0 && flags & 2 == 0 && flags & 32 == 0))
        by (bit_vector);
}

/// A page is reduced to its widgets step by step: the annotations from the first to the
/// last, each that is no visible widget hidden with its other flags kept; then the
/// objects from the last to the first, each removed; then it is flattened.
pub proof fn pages_are_reduced_to_their_widgets(i: i32, total: i32, subtype: i32, flags: i32, n: i32)
    requires
        0 <= i < total,
    ensures
        ({
            let next = if i + 1 < total {
                (
                    CopyState::ReadingAnnot((i + 1) as i32, total),
                    CopyAction::ReadAnnot((i + 1) as i32),
                )
            } else {
                (CopyState::CountingObjects, CopyAction::CountObjects)
            };
            let seen = subtype == 20 && flags & 1 == 0 && flags & 2 == 0 && flags & 32 == 0;
            let read = document::copy_step_of(
                CopyState::ReadingAnnot(i, total),
                CopyEvent::Annot(subtype, flags),
            );
            &&& seen ==> read == next
            &&& !seen ==> read == (
                CopyState::Hiding(i, total),
                CopyAction::SetFlags(i, flags | 2),
            )
            &&& document::copy_step_of(CopyState::Hiding(i, total), CopyEvent::Done(true)) == next
            &&& document::copy_step_of(CopyState::Opening, CopyEvent::Opened(total)) == (
                CopyState::ReadingAnnot(0, total),
                CopyAction::ReadAnnot(0),
            )
            &&& n > 0 ==> document::copy_step_of(
                CopyState::CountingObjects,
                CopyEvent::Objects(n),
            ) == (
                CopyState::Removing((n - 1) as i32),
                CopyAction::RemoveObject((n - 1) as i32),
            )
            &&& i > 0 ==> document::copy_step_of(CopyState::Removing(i), CopyEvent::Done(true)) == (
                CopyState::Removing((i - 1) as i32),
                CopyAction::RemoveObject((i - 1) as i32),
            )
            &&& document::copy_step_of(CopyState::Removing(0), CopyEvent::Done(true)) == (
                CopyState::Generating,
                CopyAction::Generate,
            )
            &&& document::copy_step_of(CopyState::Generating, CopyEvent::Done(true)) == (
                CopyState::Flattening,
                CopyAction::Flatten,
            )
        }),
{
    widgets_are_seen_without_their_flags(subtype, flags);
}

/// A step that fails ends the copy without one, and a copy that has ended stays so.
pub proof fn failed_steps_end_the_copy(from: CopyState, event: CopyEvent)
    ensures
        !(from is Start) && !(from is Ended) ==> document::copy_step_of(
            from,
            CopyEvent::Done(false),
        ) == (CopyState::Ended, CopyAction::GiveUp),
        document::copy_step_of(CopyState::Ended, event) == (CopyState::Ended, CopyAction::Ignore),
        document::copy_step_of(CopyState::Start, CopyEvent::Begin(true)).1 == CopyAction::Create,
        document::copy_step_of(CopyState::Start, CopyEvent::Begin(false)) == (
            CopyState::Ended,
            CopyAction::GiveUp,
        ),
{
}

// ── Screenshots ────────────────────────────────────────────────────────

/// A byte of a pixel: red, green, blue or opacity.
pub open spec fn pixel_byte(rgba: Seq<u8>, p: int, c: int) -> u8 {
    rgba[4 * p + c]
}

/// A picture is of one colour exactly where every pixel has the colour of the first.
pub proof fn pictures_of_one_colour_repeat_their_first_pixel(rgba: Seq<u8>)
    requires
        rgba.len() % 4 == 0,
    ensures
        screenshots::one_color(rgba) <==> forall|p: int, c: int|
            0 <= p && 4 * p < rgba.len() && 0 <= c < 4 ==> #[trigger] pixel_byte(rgba, p, c)
                == rgba[c],
{
    if screenshots::one_color(rgba) {
        assert forall|p: int, c: int|
            0 <= p && 4 * p < rgba.len() && 0 <= c < 4 implies #[trigger] pixel_byte(rgba, p, c)
            == rgba[c] by {
            let i = 4 * p + c;
            assert(i % 4 == c);
            assert(rgba[i] == rgba[i % 4]);
        }
    }
    if forall|p: int, c: int|
        0 <= p && 4 * p < rgba.len() && 0 <= c < 4 ==> #[trigger] pixel_byte(rgba, p, c)
            == rgba[c] {
        assert forall|i: int| 0 <= i < rgba.len() - rgba.len() % 4 implies #[trigger] rgba[i]
            == rgba[i % 4] by {
            let (p, c) = (i / 4, i % 4);
            assert(i == 4 * p + c);
            assert(pixel_byte(rgba, p, c) == rgba[c]);
        }
    }
}

/// Pages are drawn as they are asked for, in that order, or all of them from the first.
pub proof fn pages_are_drawn_as_asked_for(numbers: Vec<u32>, count: u32, k: int)
    ensures
        screenshots::pages_to_draw(Some(numbers), count) == numbers@,
        screenshots::pages_to_draw(None, count).len() == count,
        0 <= k < count ==> screenshots::pages_to_draw(None, count)[k] == k + 1,
{
}

/// A screenshot shows the page that it is numbered for, drawn at the resolution asked
/// for, as wide and high as it was drawn; boxes are looked for where they are wanted and
/// the picture shows something.
pub proof fn screenshots_show_their_page<
    D: Fn(usize, u64) -> Result<RasterPage, String>,
    F: Fn(&RasterPage) -> Vec<ScreenshotRect>,
    P: Fn(&RasterPage) -> Result<Vec<u8>, LiteParseError>,
>(shot: ScreenshotResult, page: u32, dpi: u64, wanted: bool, painter: Painter<D, F, P>)
    requires
        screenshots::is_shot(shot, page, dpi, wanted, painter),
        page >= 1,
    ensures
        shot.page_num == page,
        !wanted || shot.is_solid_fill ==> shot.rects@.len() == 0,
        exists|raster: RasterPage|
            {
                &&& #[trigger] call_ensures(
                    painter.draw,
                    ((page - 1) as usize, dpi),
                    Ok::<RasterPage, String>(raster),
                )
                &&& shot.width == raster.width
                &&& shot.height == raster.height
                &&& call_ensures(
                    painter.encode,
                    (&raster,),
                    Ok::<Vec<u8>, LiteParseError>(shot.image_bytes),
                )
                &&& wanted && !shot.is_solid_fill ==> call_ensures(
                    painter.find,
                    (&raster,),
                    shot.rects,
                )
            },
{
}

// ── Order of a parse ───────────────────────────────────────────────────

/// A native parse is refused exactly where something is asked for that it cannot do:
/// form fields, the structure tree, vector graphics, a crop, skipping slanted text, and,
/// but for documents, annotations.
pub proof fn native_parses_are_refused_for_what_they_cannot_do(
    c: LiteParseConfig,
    kind: OfficeKind,
)
    ensures
        flow::unsupported(c, kind) is Some <==> c.extract_form_fields || c.extract_structure_tree
            || c.extract_vector_graphics || c.crop_box is Some || c.skip_diagonal_text
            || c.extract_annotations && !(kind is Docx),
        !c.extract_form_fields && c.extract_structure_tree ==> flow::unsupported(c, kind) == Some(
            "extract_structure_tree"@,
        ),
        c.extract_form_fields ==> flow::unsupported(c, kind) == Some("extract_form_fields"@),
{
}

/// An extraction asks for what the settings want: the pages, at most so many of them,
/// with the engine chosen; facts of the document only where it was not converted; and
/// pictures for reading only where reading is on, at the resolution set.
pub proof fn extractions_ask_for_what_is_wanted(
    plan: ExtractPlan,
    c: LiteParseConfig,
    converted: bool,
    targets: Option<Vec<u32>>,
    engine: OcrChoice,
    grayscale: bool,
)
    requires
        flow::is_plan(plan, c, converted, targets, engine, grayscale),
    ensures
        plan.password == c.password,
        plan.target_pages == targets,
        plan.max_pages == c.max_pages,
        plan.engine == engine,
        plan.form_fields == c.extract_form_fields,
        plan.doc_meta <==> c.extract_document_metadata && !converted,
        plan.xfa_packets == c.extract_xfa_packets,
        plan.complexity == c.include_complexity,
        plan.corrections@ == c.page_orientation_corrections@,
        plan.ocr_render is Some <==> c.ocr_enabled,
        plan.ocr_render matches Some(o) ==> o.dpi == c.dpi && o.grayscale == grayscale
            && o.form_fields == c.render_form_fields,
        plan.screenshots is Some <==> c.extract_screenshots,
        plan.screenshots matches Some(s) ==> s.dpi == c.dpi && s.detect_rects
            == c.detect_screenshot_rects && s.render_form_fields == c.render_form_fields
            && s.continue_on_page_error == c.continue_on_page_error,
{
}

/// A rendering asks for what the settings want.
pub proof fn renderings_ask_for_what_is_wanted(plan: RenderPlan, c: LiteParseConfig)
    requires
        flow::is_render_plan(plan, c),
    ensures
        plan.dpi == c.dpi,
        plan.password == c.password,
        plan.detect_rects == c.detect_screenshot_rects,
        plan.form_fields == c.render_form_fields,
        plan.corrections@ == c.page_orientation_corrections@,
{
}

/// Formats are tried in order, documents, then decks, then workbooks, and then the file
/// is resolved; one that is found, and can do what is asked, is parsed natively.
pub proof fn formats_are_tried_in_order(
    c: LiteParseConfig,
    context: ParseContext,
    kind: OfficeKind,
    found: bool,
    to: ParseState,
    action: ParseAction,
)
    requires
        flow::is_step(
            c,
            context,
            ParseState::Probing(kind),
            ParseEvent::Probed(found),
            to,
            action,
        ),
    ensures
        !found && kind is Docx ==> action == ParseAction::Probe(OfficeKind::Pptx),
        !found && kind is Pptx ==> action == ParseAction::Probe(OfficeKind::Xlsx),
        !found && kind is Xlsx ==> action == ParseAction::Resolve(c.password),
        found && flow::unsupported(c, kind) is None ==> action == ParseAction::ParseNative(kind),
        found && flow::unsupported(c, kind) is Some ==> action is Fail,
{
}

/// A parse begins with its settings, which can fail it, and with the first format where
/// native parsing is on; it reads where reading is on, with the language, workers and
/// strictness set; and whatever fails ends it with that error.
pub proof fn parses_begin_read_and_fail_as_set(
    c: LiteParseConfig,
    context: ParseContext,
    from: ParseState,
    event: ParseEvent,
    to: ParseState,
    action: ParseAction,
)
    requires
        flow::is_step(c, context, from, event, to, action),
    ensures
        from is Start && event is Begin ==> (context.checked matches Err(e) ==> action
            == ParseAction::Fail(e)),
        from is Start && event is Begin && context.checked is Ok ==> action == (
        if c.office_native {
            ParseAction::Probe(OfficeKind::Docx)
        } else {
            ParseAction::Resolve(c.password)
        }),
        from is Extracting && event is Extracted ==> (action is Recognise <==> c.ocr_enabled),
        from is Extracting && event is Extracted ==> (action is Assemble <==> !c.ocr_enabled),
        from is Extracting && event is Extracted ==> (action matches ParseAction::Recognise(p)
            ==> p.language == c.ocr_language && p.workers == c.num_workers && p.failure_fatal
            == c.ocr_failure_fatal),
        from is Recognising && event is Recognised ==> action is Assemble,
        from is Native && event is NativeDone ==> action is ReturnNative,
        from is Resolving || from is Extracting || from is Recognising ==> (
        event matches ParseEvent::Failed(e) ==> action == ParseAction::Fail(e) && to is Ended),
        from is Ended ==> action is Ignore && to is Ended,
{
}

/// Screenshots are taken of the first format that is found, or of the rendered file; a
/// format that cannot be converted gives way to the next, and any other failure ends
/// them.
pub proof fn screenshots_are_taken_of_the_format_found(
    c: LiteParseConfig,
    from: ShotState,
    event: ShotEvent,
    to: ShotState,
    action: ShotAction,
)
    requires
        flow::is_shot_step(c, from, event, to, action),
    ensures
        from is Start && event is Begin && c.office_native ==> action == ShotAction::Probe(
            OfficeKind::Docx,
        ),
        from is Start && event is Begin && !c.office_native ==> action is Render,
        from matches ShotState::Probing(k) ==> (event matches ShotEvent::Probed(found) ==> (found
            ==> action == ShotAction::Draw(k)) && (!found && k is Docx ==> action
            == ShotAction::Probe(OfficeKind::Pptx)) && (!found && k is Pptx ==> action
            == ShotAction::Probe(OfficeKind::Xlsx)) && (!found && k is Xlsx ==> action is Render)),
        from is Drawing && event is Drawn ==> action is Return,
        from is Drawing ==> (event matches ShotEvent::Failed(e) ==> (!(e is Conversion) ==> action
            == ShotAction::Fail(e)) && (e is Conversion ==> !(action is Fail) && !(to is Ended))),
        from is Rendering && event is Drawn ==> action is Return,
        from is Rendering ==> (event matches ShotEvent::Failed(e) ==> action == ShotAction::Fail(
            e,
        )),
{
}

/// A file that was resolved is extracted, unless the pages asked for cannot be told or
/// there is no engine; then the parse fails with that error, the pages' first.
pub proof fn resolved_files_are_extracted(
    c: LiteParseConfig,
    context: ParseContext,
    converted: bool,
    to: ParseState,
    action: ParseAction,
)
    requires
        flow::is_step(
            c,
            context,
            ParseState::Resolving,
            ParseEvent::Resolved(converted),
            to,
            action,
        ),
    ensures
        context.targets matches Err(e) ==> to is Ended && action == ParseAction::Fail(e),
        context.targets is Ok ==> (context.engine matches Err(e) ==> to is Ended && action
            == ParseAction::Fail(e)),
        context.targets is Ok && context.engine is Ok ==> to is Extracting && (
        action matches ParseAction::Extract(plan) && plan.max_pages == c.max_pages
            && plan.target_pages == context.targets->Ok_0 && plan.engine == context.engine->Ok_0),
{
}

/// A page that is not there is answered with its number and how many there are; one that
/// is there fails only where it cannot be drawn or encoded.
pub proof fn missing_pages_are_named<
    D: Fn(usize, u64) -> Result<RasterPage, String>,
    F: Fn(&RasterPage) -> Vec<ScreenshotRect>,
    P: Fn(&RasterPage) -> Result<Vec<u8>, LiteParseError>,
>(
    e: LiteParseError,
    page: u32,
    count: u32,
    dpi: u64,
    container: Seq<char>,
    noun: Seq<char>,
    painter: Painter<D, F, P>,
)
    requires
        screenshots::is_shot_error(e, page, count, dpi, container, noun, painter),
    ensures
        page == 0 || page > count ==> (e matches LiteParseError::Other(s) && s@
            == screenshots::out_of_range(page, container, count, noun)),
        1 <= page <= count && (e is Config || e is Other) ==> exists|raster: RasterPage|
            #[trigger] call_ensures(
                painter.draw,
                ((page - 1) as usize, dpi),
                Ok::<RasterPage, String>(raster),
            ) && call_ensures(painter.encode, (&raster,), Err::<Vec<u8>, LiteParseError>(e)),
{
}

}
