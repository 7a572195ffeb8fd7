//! What the items, links, annotations and outline of a laid-out document say of the
//! commands that drew it.
use crate::docx_layout;
use crate::docx_layout::{NativeLayout, OutlineView, RunMetrics, SpanView};
use crate::draw_command::{DrawCommand, LayoutedPage, OutlineMark, RgbColor};
use crate::geometry::{PtRect, Rect};
use crate::text;
use crate::text_laws;
use crate::types::{DocumentAnnotation, TextItem};
use crate::units;
use vstd::prelude::*;

verus! {

/// The command that drew an item of a page.
pub open spec fn drawn_by(layouted: Seq<LayoutedPage>, p: int, k: int) -> int {
    let cmds = layouted[p].commands@;
    docx_layout::item_commands(cmds, cmds.len() as int)[k]
}

// ── Links ──────────────────────────────────────────────────────────────

/// Whether an item and a link of some width share no ground sideways: one ends where
/// the other begins or before.
pub open spec fn lies_beside(item: TextItem, r: PtRect) -> bool {
    &&& 0 < r.size.width.emu
    &&& item.x.emu + item.width.emu <= r.origin.x.emu || r.origin.x.emu + r.size.width.emu
        <= item.x.emu
}

/// Whether an item and a link of some height share no ground downwards.
pub open spec fn lies_above_or_below(item: TextItem, r: PtRect) -> bool {
    &&& 0 < r.size.height.emu
    &&& item.y.emu + item.height.emu <= r.origin.y.emu || r.origin.y.emu + r.size.height.emu
        <= item.y.emu
}

/// Whether an item and a link share no ground.
pub open spec fn lies_apart(item: TextItem, r: PtRect) -> bool {
    lies_beside(item, r) || lies_above_or_below(item, r)
}

/// Whether an item holds a link from left to right.
pub open spec fn holds_sideways(item: TextItem, r: PtRect) -> bool {
    &&& item.x.emu <= r.origin.x.emu
    &&& r.origin.x.emu + r.size.width.emu <= item.x.emu + item.width.emu
}

/// Whether an item holds a link from top to bottom.
pub open spec fn holds_downwards(item: TextItem, r: PtRect) -> bool {
    &&& item.y.emu <= r.origin.y.emu
    &&& r.origin.y.emu + r.size.height.emu <= item.y.emu + item.height.emu
}

/// Whether a link has an area, and its edges can be told.
pub open spec fn has_area(r: PtRect) -> bool {
    &&& 0 < r.size.width.emu
    &&& 0 < r.size.height.emu
    &&& units::fits(r.origin.x.emu + r.size.width.emu)
    &&& units::fits(r.origin.y.emu + r.size.height.emu)
}

proof fn lemma_apart(item: TextItem, r: PtRect)
    requires
        lies_apart(item, r),
    ensures
        !docx_layout::covers_half(item.area(), r.spec_flat()),
{
}

proof fn lemma_holds(item: TextItem, r: PtRect)
    requires
        has_area(r),
        holds_sideways(item, r),
        holds_downwards(item, r),
    ensures
        docx_layout::covers_half(item.area(), r.spec_flat()),
{
}

proof fn lemma_link_from(item: Rect, links: Seq<(Rect, Seq<char>)>, i: int, k: int)
    requires
        0 <= i <= k <= links.len(),
        forall|j: int|
            i <= j < k ==> !docx_layout::covers_half(item, (#[trigger] links[j]).0),
    ensures
        docx_layout::link_from(item, links, i) == docx_layout::link_from(item, links, k),
    decreases k - i,
{
    if i < k {
        assert(!docx_layout::covers_half(item, links[i].0));
        lemma_link_from(item, links, i + 1, k);
    }
}

proof fn lemma_links_prefix(cmds: Seq<DrawCommand>, j: int, n: int)
    requires
        0 <= j <= n <= cmds.len(),
    ensures
        docx_layout::links_of(cmds, j).is_prefix_of(docx_layout::links_of(cmds, n)),
    decreases n - j,
{
    if j < n {
        lemma_links_prefix(cmds, j, n - 1);
        let a = docx_layout::links_of(cmds, j);
        let b = docx_layout::links_of(cmds, n - 1);
        let c = docx_layout::links_of(cmds, n);
        assert(a =~= b.take(a.len() as int));
        assert(a =~= c.take(a.len() as int));
    }
}

proof fn lemma_none_covers(item: Rect, cmds: Seq<DrawCommand>, n: int)
    requires
        0 <= n <= cmds.len(),
        forall|i: int|
            0 <= i < n ==> (#[trigger] cmds[i] matches DrawCommand::LinkAnnotation { rect, .. }
                ==> !docx_layout::covers_half(item, rect.spec_flat())),
    ensures
        forall|k: int|
            0 <= k < docx_layout::links_of(cmds, n).len() ==> !docx_layout::covers_half(
                item,
                (#[trigger] docx_layout::links_of(cmds, n)[k]).0,
            ),
    decreases n,
{
    if n > 0 {
        lemma_none_covers(item, cmds, n - 1);
        let b = docx_layout::links_of(cmds, n - 1);
        let c = docx_layout::links_of(cmds, n);
        assert(cmds[n - 1] matches DrawCommand::LinkAnnotation { rect, .. }
            ==> !docx_layout::covers_half(item, rect.spec_flat()));
        assert forall|k: int| 0 <= k < c.len() implies !docx_layout::covers_half(
            item,
            (#[trigger] c[k]).0,
        ) by {
            if k < b.len() {
                assert(c[k] == b[k]);
            }
        }
    }
}

proof fn lemma_page_item(
    layouted: Seq<LayoutedPage>,
    runs: Seq<Vec<RunMetrics>>,
    r: NativeLayout,
    words: bool,
    annotations: bool,
    p: int,
    k: int,
)
    requires
        docx_layout::is_layout(r, layouted, runs, words, annotations),
        0 <= p < r.pages@.len(),
        0 <= k < r.pages@[p].text_items@.len(),
    ensures
        docx_layout::is_made_item(
            r.pages@[p].text_items@[k],
            layouted[p].commands@,
            runs[p]@,
            drawn_by(layouted, p, k),
            words,
        ),
        0 <= drawn_by(layouted, p, k) < layouted[p].commands@.len(),
{
    assert(docx_layout::is_native_page(
        r.pages@[p],
        layouted[p],
        runs[p]@,
        p,
        words,
        annotations,
    ));
    docx_layout::items_follow_commands(
        layouted[p].commands@,
        layouted[p].commands@.len() as int,
    );
    assert(docx_layout::is_made_item(
        r.pages@[p].text_items@[k],
        layouted[p].commands@,
        runs[p]@,
        drawn_by(layouted, p, k),
        words,
    ));
}

/// Text that lies apart from every hyperlink of its page, beside it, above it or
/// below it, leads nowhere.
pub proof fn text_apart_from_links_leads_nowhere(
    layouted: Seq<LayoutedPage>,
    runs: Seq<Vec<RunMetrics>>,
    r: NativeLayout,
    words: bool,
    annotations: bool,
    p: int,
    k: int,
)
    requires
        docx_layout::is_layout(r, layouted, runs, words, annotations),
        0 <= p < r.pages@.len(),
        0 <= k < r.pages@[p].text_items@.len(),
        forall|i: int|
            0 <= i < layouted[p].commands@.len() ==> (
            #[trigger] layouted[p].commands@[i] matches DrawCommand::LinkAnnotation { rect, .. }
                ==> lies_apart(r.pages@[p].text_items@[k], rect)),
    ensures
        r.pages@[p].text_items@[k].link is None,
{
    lemma_page_item(layouted, runs, r, words, annotations, p, k);
    let item = r.pages@[p].text_items@[k];
    let cmds = layouted[p].commands@;
    let n = cmds.len() as int;
    assert forall|i: int| 0 <= i < n implies (
    #[trigger] cmds[i] matches DrawCommand::LinkAnnotation { rect, .. }
        ==> !docx_layout::covers_half(item.area(), rect.spec_flat())) by {
        if let DrawCommand::LinkAnnotation { rect, .. } = cmds[i] {
            lemma_apart(item, rect);
        }
    }
    lemma_none_covers(item.area(), cmds, n);
    let links = docx_layout::links_of(cmds, n);
    lemma_link_from(item.area(), links, 0, links.len() as int);
}

proof fn lemma_first_link(item: TextItem, cmds: Seq<DrawCommand>, j: int)
    requires
        0 <= j < cmds.len(),
        cmds[j] is LinkAnnotation,
        docx_layout::covers_half(item.area(), cmds[j]->LinkAnnotation_rect.spec_flat()),
        forall|i: int|
            0 <= i < j ==> (#[trigger] cmds[i] matches DrawCommand::LinkAnnotation { rect, .. }
                ==> !docx_layout::covers_half(item.area(), rect.spec_flat())),
    ensures
        docx_layout::link_from(
            item.area(),
            docx_layout::links_of(cmds, cmds.len() as int),
            0,
        ) == Some(cmds[j]->LinkAnnotation_url@),
{
    let n = cmds.len() as int;
    let before = docx_layout::links_of(cmds, j);
    let with = docx_layout::links_of(cmds, j + 1);
    let links = docx_layout::links_of(cmds, n);
    let at = before.len() as int;
    lemma_links_prefix(cmds, j, n);
    lemma_links_prefix(cmds, j + 1, n);
    lemma_none_covers(item.area(), cmds, j);
    assert(with.len() == at + 1);
    assert(links[at] == with[at]);
    assert forall|k: int| 0 <= k < at implies !docx_layout::covers_half(
        item.area(),
        (#[trigger] links[k]).0,
    ) by {
        assert(links[k] == before[k]);
    }
    lemma_link_from(item.area(), links, 0, at);
}

/// Text that holds a hyperlink leads where the link leads, as long as it lies apart
/// from those drawn before it.
pub proof fn text_that_holds_a_link_leads_there(
    layouted: Seq<LayoutedPage>,
    runs: Seq<Vec<RunMetrics>>,
    r: NativeLayout,
    words: bool,
    annotations: bool,
    p: int,
    k: int,
    j: int,
)
    requires
        docx_layout::is_layout(r, layouted, runs, words, annotations),
        0 <= p < r.pages@.len(),
        0 <= k < r.pages@[p].text_items@.len(),
        0 <= j < layouted[p].commands@.len(),
        layouted[p].commands@[j] matches DrawCommand::LinkAnnotation { rect, .. } && has_area(rect)
            && holds_sideways(r.pages@[p].text_items@[k], rect) && holds_downwards(
            r.pages@[p].text_items@[k],
            rect,
        ),
        forall|i: int|
            0 <= i < j ==> (
            #[trigger] layouted[p].commands@[i] matches DrawCommand::LinkAnnotation { rect, .. }
                ==> lies_apart(r.pages@[p].text_items@[k], rect)),
    ensures
        r.pages@[p].text_items@[k].link matches Some(url) && url@
            == layouted[p].commands@[j]->LinkAnnotation_url@,
{
    lemma_page_item(layouted, runs, r, words, annotations, p, k);
    let item = r.pages@[p].text_items@[k];
    let cmds = layouted[p].commands@;
    lemma_holds(item, cmds[j]->LinkAnnotation_rect);
    assert forall|i: int| 0 <= i < j implies (
    #[trigger] cmds[i] matches DrawCommand::LinkAnnotation { rect, .. }
        ==> !docx_layout::covers_half(item.area(), rect.spec_flat())) by {
        if let DrawCommand::LinkAnnotation { rect, .. } = cmds[i] {
            lemma_apart(item, rect);
        }
    }
    lemma_first_link(item, cmds, j);
}

/// Half is enough: text that covers a hyperlink one way, and the other way only its
/// first or its last part, leads where the link leads exactly where that part is
/// half of it or more. The page has no other hyperlink.
pub proof fn text_over_half_a_link_leads_there(
    layouted: Seq<LayoutedPage>,
    runs: Seq<Vec<RunMetrics>>,
    r: NativeLayout,
    words: bool,
    annotations: bool,
    p: int,
    k: int,
    j: int,
)
    requires
        docx_layout::is_layout(r, layouted, runs, words, annotations),
        0 <= p < r.pages@.len(),
        0 <= k < r.pages@[p].text_items@.len(),
        0 <= j < layouted[p].commands@.len(),
        layouted[p].commands@[j] matches DrawCommand::LinkAnnotation { rect, .. } && has_area(rect),
        forall|i: int|
            0 <= i < layouted[p].commands@.len() && i != j ==> !(
            #[trigger] layouted[p].commands@[i] is LinkAnnotation),
    ensures
        ({
            let item = r.pages@[p].text_items@[k];
            let rect = layouted[p].commands@[j]->LinkAnnotation_rect;
            let (x0, x1) = (item.x.emu as int, item.x.emu + item.width.emu);
            let (y0, y1) = (item.y.emu as int, item.y.emu + item.height.emu);
            let (l, w) = (rect.origin.x.emu as int, rect.size.width.emu as int);
            let (t, h) = (rect.origin.y.emu as int, rect.size.height.emu as int);
            &&& holds_downwards(item, rect) && x0 <= l && l <= x1 <= l + w ==> (item.link is Some
                <==> 2 * (x1 - l) >= w)
            &&& holds_downwards(item, rect) && l <= x0 <= l + w && l + w <= x1 ==> (item.link is Some
                <==> 2 * (l + w - x0) >= w)
            &&& holds_downwards(item, rect) && l <= x0 <= x1 <= l + w ==> (item.link is Some <==> 2
                * item.width.emu >= w)
            &&& holds_sideways(item, rect) && y0 <= t && t <= y1 <= t + h ==> (item.link is Some
                <==> 2 * (y1 - t) >= h)
            &&& holds_sideways(item, rect) && t <= y0 <= t + h && t + h <= y1 ==> (item.link is Some
                <==> 2 * (t + h - y0) >= h)
            &&& holds_sideways(item, rect) && t <= y0 <= y1 <= t + h ==> (item.link is Some <==> 2
                * item.height.emu >= h)
            &&& item.link matches Some(url) ==> url@ == layouted[p].commands@[j]->LinkAnnotation_url@
        }),
{
    lemma_page_item(layouted, runs, r, words, annotations, p, k);
    let item = r.pages@[p].text_items@[k];
    let cmds = layouted[p].commands@;
    let n = cmds.len() as int;
    let rect = cmds[j]->LinkAnnotation_rect;
    if docx_layout::covers_half(item.area(), rect.spec_flat()) {
        lemma_first_link(item, cmds, j);
    } else {
        assert forall|i: int| 0 <= i < n implies (
        #[trigger] cmds[i] matches DrawCommand::LinkAnnotation { rect, .. }
            ==> !docx_layout::covers_half(item.area(), rect.spec_flat())) by {}
        lemma_none_covers(item.area(), cmds, n);
        let links = docx_layout::links_of(cmds, n);
        lemma_link_from(item.area(), links, 0, links.len() as int);
    }
}

// ── Items ──────────────────────────────────────────────────────────────

/// The items of a page are its texts and emoji, in the order in which they were
/// drawn, each once.
pub proof fn pages_hold_their_texts_in_order(
    layouted: Seq<LayoutedPage>,
    runs: Seq<Vec<RunMetrics>>,
    r: NativeLayout,
    words: bool,
    annotations: bool,
    p: int,
)
    requires
        docx_layout::is_layout(r, layouted, runs, words, annotations),
        0 <= p < r.pages@.len(),
    ensures
        r.pages@.len() == layouted.len(),
        forall|k: int|
            0 <= k < r.pages@[p].text_items@.len() ==> {
                let i = #[trigger] drawn_by(layouted, p, k);
                &&& 0 <= i < layouted[p].commands@.len()
                &&& layouted[p].commands@[i] is Text || layouted[p].commands@[i] is EmojiCluster
            },
        forall|k: int, l: int|
            0 <= k < l < r.pages@[p].text_items@.len() ==> (#[trigger] drawn_by(layouted, p, k)) < (
            #[trigger] drawn_by(layouted, p, l)),
        forall|i: int|
            0 <= i < layouted[p].commands@.len() && (
            #[trigger] layouted[p].commands@[i] is Text
                || layouted[p].commands@[i] is EmojiCluster) ==> exists|k: int|
                0 <= k < r.pages@[p].text_items@.len() && #[trigger] drawn_by(layouted, p, k) == i,
{
    assert(docx_layout::is_native_page(
        r.pages@[p],
        layouted[p],
        runs[p]@,
        p,
        words,
        annotations,
    ));
    let cmds = layouted[p].commands@;
    let n = cmds.len() as int;
    docx_layout::items_follow_commands(cmds, n);
    let made = docx_layout::item_commands(cmds, n);
    assert forall|i: int|
        0 <= i < n && (#[trigger] cmds[i] is Text || cmds[i] is EmojiCluster) implies exists|k: int|
        0 <= k < r.pages@[p].text_items@.len() && #[trigger] drawn_by(layouted, p, k) == i by {
        assert(docx_layout::makes_item(cmds[i]));
        assert(made.contains(i));
        let k = choose|k: int| 0 <= k < made.len() && made[k] == i;
        assert(drawn_by(layouted, p, k) == i);
    }
    assert forall|k: int, l: int| 0 <= k < l < r.pages@[p].text_items@.len() implies (
    #[trigger] drawn_by(layouted, p, k)) < (#[trigger] drawn_by(layouted, p, l)) by {
        assert(made[k] < made[l]);
    }
    assert forall|k: int| 0 <= k < r.pages@[p].text_items@.len() implies {
        let i = #[trigger] drawn_by(layouted, p, k);
        &&& 0 <= i < layouted[p].commands@.len()
        &&& layouted[p].commands@[i] is Text || layouted[p].commands@[i] is EmojiCluster
    } by {
        assert(docx_layout::makes_item(cmds[made[k]]));
    }
}

/// A text stands where it was drawn: its left edge at the start of its baseline,
/// as far above the baseline as its font rises and as high as the font is. It says
/// what was drawn, in the font, weight and colour in which it was.
pub proof fn texts_stand_where_they_were_drawn(
    layouted: Seq<LayoutedPage>,
    runs: Seq<Vec<RunMetrics>>,
    r: NativeLayout,
    words: bool,
    annotations: bool,
    p: int,
    k: int,
)
    requires
        docx_layout::is_layout(r, layouted, runs, words, annotations),
        0 <= p < r.pages@.len(),
        0 <= k < r.pages@[p].text_items@.len(),
        layouted[p].commands@[drawn_by(layouted, p, k)] is Text,
    ensures
        ({
            let item = r.pages@[p].text_items@[k];
            let i = drawn_by(layouted, p, k);
            let c = layouted[p].commands@[i];
            let m = runs[p]@[i];
            &&& item.x == c->Text_position.x
            &&& item.y.emu == units::sat(c->Text_position.y.emu - m.ascent.emu)
            &&& item.width == m.advance
            &&& item.height.emu == units::sat(m.ascent.emu + m.descent.emu)
            &&& item.text@ == c->Text_text@
            &&& item.rotation.units == 0
            &&& item.font_name matches Some(f) && f@ == c->Text_font_family@
            &&& item.font_size == Some(c->Text_font_size)
            &&& item.font_height == Some(c->Text_font_size)
            &&& item.font_ascent == Some(m.ascent)
            &&& item.font_descent matches Some(d) && d.emu == units::sat(-m.descent.emu)
            &&& item.font_weight matches Some(w) && (c->Text_bold ==> w == 700) && (!c->Text_bold
                ==> w == 400)
            &&& item.text_width == Some(m.advance)
            &&& item.stroke_color is None
            &&& item.mcid is None
            &&& item.char_codes@.len() == 0
            &&& !item.strike && !item.font_is_buggy && !item.trailing_space_generated
        }),
{
    lemma_page_item(layouted, runs, r, words, annotations, p, k);
}

/// An emoji has the box in which it was drawn, and its size, and nothing else of a
/// font.
pub proof fn emoji_keep_their_box(
    layouted: Seq<LayoutedPage>,
    runs: Seq<Vec<RunMetrics>>,
    r: NativeLayout,
    words: bool,
    annotations: bool,
    p: int,
    k: int,
)
    requires
        docx_layout::is_layout(r, layouted, runs, words, annotations),
        0 <= p < r.pages@.len(),
        0 <= k < r.pages@[p].text_items@.len(),
        layouted[p].commands@[drawn_by(layouted, p, k)] is EmojiCluster,
    ensures
        ({
            let item = r.pages@[p].text_items@[k];
            let c = layouted[p].commands@[drawn_by(layouted, p, k)];
            let rect = c->EmojiCluster_rect;
            &&& item.x == rect.origin.x
            &&& item.y == rect.origin.y
            &&& item.width == rect.size.width
            &&& item.height == rect.size.height
            &&& item.text@ == c->EmojiCluster_text@
            &&& item.font_size == Some(c->EmojiCluster_size)
            &&& item.font_name is None && item.font_weight is None && item.font_height is None
            &&& item.font_ascent is None && item.font_descent is None && item.text_width is None
            &&& item.fill_color is None
            &&& item.words@.len() == 0
            &&& item.rotation.units == 0
        }),
{
    lemma_page_item(layouted, runs, r, words, annotations, p, k);
}

/// The colour of a text is told by eight hexadecimal digits: opaque, then its red,
/// green and blue.
pub proof fn texts_tell_their_colour(
    layouted: Seq<LayoutedPage>,
    runs: Seq<Vec<RunMetrics>>,
    r: NativeLayout,
    words: bool,
    annotations: bool,
    p: int,
    k: int,
)
    requires
        docx_layout::is_layout(r, layouted, runs, words, annotations),
        0 <= p < r.pages@.len(),
        0 <= k < r.pages@[p].text_items@.len(),
        layouted[p].commands@[drawn_by(layouted, p, k)] is Text,
    ensures
        ({
            let color = layouted[p].commands@[drawn_by(layouted, p, k)]->Text_color;
            &&& r.pages@[p].text_items@[k].fill_color matches Some(s)
            &&& s@.len() == 8
            &&& s@[0] == 'f' && s@[1] == 'f'
            &&& text_laws::hex_value(s@[2]) * 16 + text_laws::hex_value(s@[3]) == color.r
            &&& text_laws::hex_value(s@[4]) * 16 + text_laws::hex_value(s@[5]) == color.g
            &&& text_laws::hex_value(s@[6]) * 16 + text_laws::hex_value(s@[7]) == color.b
        }),
{
    lemma_page_item(layouted, runs, r, words, annotations, p, k);
    lemma_argb(layouted[p].commands@[drawn_by(layouted, p, k)]->Text_color);
}

proof fn lemma_argb(c: RgbColor)
    ensures
        ({
            let s = docx_layout::argb_text(c);
            &&& s.len() == 8
            &&& s[0] == 'f' && s[1] == 'f'
            &&& text_laws::hex_value(s[2]) * 16 + text_laws::hex_value(s[3]) == c.r
            &&& text_laws::hex_value(s[4]) * 16 + text_laws::hex_value(s[5]) == c.g
            &&& text_laws::hex_value(s[6]) * 16 + text_laws::hex_value(s[7]) == c.b
        }),
{
    reveal_strlit("ff");
    text_laws::bytes_are_written_as_they_are(c.r);
    text_laws::bytes_are_written_as_they_are(c.g);
    text_laws::bytes_are_written_as_they_are(c.b);
    let s = docx_layout::argb_text(c);
    assert(s[2] == text::hex(c.r)[0] && s[3] == text::hex(c.r)[1]);
    assert(s[4] == text::hex(c.g)[0] && s[5] == text::hex(c.g)[1]);
    assert(s[6] == text::hex(c.b)[0] && s[7] == text::hex(c.b)[1]);
}

/// A word stands in its text as far along as the characters before it advance, and
/// is as wide as its own do.
pub proof fn words_stand_where_their_characters_do(
    layouted: Seq<LayoutedPage>,
    runs: Seq<Vec<RunMetrics>>,
    r: NativeLayout,
    annotations: bool,
    p: int,
    k: int,
)
    requires
        docx_layout::is_layout(r, layouted, runs, true, annotations),
        0 <= p < r.pages@.len(),
        0 <= k < r.pages@[p].text_items@.len(),
        layouted[p].commands@[drawn_by(layouted, p, k)] is Text,
    ensures
        ({
            let item = r.pages@[p].text_items@[k];
            let prefix = runs[p]@[drawn_by(layouted, p, k)].prefix@;
            exists|ranges: Seq<(usize, usize)>|
                {
                    &&& #[trigger] text::are_words(item.text@, ranges)
                    &&& item.words@.len() == ranges.len()
                    &&& forall|w: int|
                        0 <= w < ranges.len() ==> {
                            let (a, b) = (ranges[w].0 as int, ranges[w].1 as int);
                            &&& (#[trigger] item.words@[w]).text@ == item.text@.subrange(a, b)
                            &&& item.words@[w].x.emu == units::sat(item.x.emu + prefix[a].emu)
                            &&& item.words@[w].width.emu == units::sat(
                                prefix[b].emu - prefix[a].emu,
                            )
                            &&& item.words@[w].y == item.y
                            &&& item.words@[w].height == item.height
                        }
                }
        }),
{
    lemma_page_item(layouted, runs, r, true, annotations, p, k);
    let item = r.pages@[p].text_items@[k];
    let prefix = runs[p]@[drawn_by(layouted, p, k)].prefix@;
    let ranges = choose|ranges: Seq<(usize, usize)>|
        {
            &&& text::are_words(item.text@, ranges)
            &&& item.words@.len() == ranges.len()
            &&& forall|w: int|
                0 <= w < ranges.len() ==> docx_layout::is_word_box(
                    #[trigger] item.words@[w],
                    item.text@,
                    ranges[w],
                    prefix,
                    item.x,
                    item.y,
                    item.height,
                )
        };
    assert(text::are_words(item.text@, ranges));
    assert forall|w: int| 0 <= w < ranges.len() implies {
        let (a, b) = (ranges[w].0 as int, ranges[w].1 as int);
        &&& (#[trigger] item.words@[w]).text@ == item.text@.subrange(a, b)
        &&& item.words@[w].x.emu == units::sat(item.x.emu + prefix[a].emu)
        &&& item.words@[w].width.emu == units::sat(prefix[b].emu - prefix[a].emu)
        &&& item.words@[w].y == item.y
        &&& item.words@[w].height == item.height
    } by {
        assert(docx_layout::is_word_box(
            item.words@[w],
            item.text@,
            ranges[w],
            prefix,
            item.x,
            item.y,
            item.height,
        ));
    }
}

/// A page has its number, counted from one, and the size of its sheet.
pub proof fn pages_are_numbered_and_sized(
    layouted: Seq<LayoutedPage>,
    runs: Seq<Vec<RunMetrics>>,
    r: NativeLayout,
    words: bool,
    annotations: bool,
    p: int,
)
    requires
        docx_layout::is_layout(r, layouted, runs, words, annotations),
        0 <= p < r.pages@.len(),
    ensures
        r.pages@[p].page_number == p + 1,
        r.pages@[p].page_width == layouted[p].page_size.width,
        r.pages@[p].page_height == layouted[p].page_size.height,
        r.pages@[p].annotations is Some <==> annotations,
{
    assert(docx_layout::is_native_page(
        r.pages@[p],
        layouted[p],
        runs[p]@,
        p,
        words,
        annotations,
    ));
}

proof fn lemma_edges(items: Seq<TextItem>, n: int)
    requires
        0 < n <= items.len(),
        forall|k: int|
            0 <= k < items.len() ==> units::fits(
                (#[trigger] items[k]).x.emu + items[k].width.emu,
            ) && units::fits(items[k].y.emu + items[k].height.emu),
    ensures
        ({
            let e = docx_layout::outer_edges(items, n);
            &&& forall|k: int|
                0 <= k < n ==> e.0.emu <= (#[trigger] items[k]).x.emu && e.1.emu <= items[k].y.emu
                    && items[k].x.emu + items[k].width.emu <= e.2.emu && items[k].y.emu
                    + items[k].height.emu <= e.3.emu
            &&& exists|k: int| 0 <= k < n && (#[trigger] items[k]).x == e.0
            &&& exists|k: int| 0 <= k < n && (#[trigger] items[k]).y == e.1
            &&& exists|k: int|
                0 <= k < n && (#[trigger] items[k]).x.emu + items[k].width.emu == e.2.emu
            &&& exists|k: int|
                0 <= k < n && (#[trigger] items[k]).y.emu + items[k].height.emu == e.3.emu
        }),
    decreases n,
{
    if n > 1 {
        lemma_edges(items, n - 1);
        let e = docx_layout::outer_edges(items, n - 1);
        let last = items[n - 1];
        let k0 = choose|k: int| 0 <= k < n - 1 && (#[trigger] items[k]).x == e.0;
        let k1 = choose|k: int| 0 <= k < n - 1 && (#[trigger] items[k]).y == e.1;
        let k2 = choose|k: int|
            0 <= k < n - 1 && (#[trigger] items[k]).x.emu + items[k].width.emu == e.2.emu;
        let k3 = choose|k: int|
            0 <= k < n - 1 && (#[trigger] items[k]).y.emu + items[k].height.emu == e.3.emu;
        assert(items[k0].x == e.0 && items[k1].y == e.1 && last == items[n - 1]);
    } else {
        assert(items[0] == items[n - 1]);
    }
}

/// The content of a page reaches from the leftmost and topmost edge of its items to
/// the rightmost and lowest one; a page without items has none.
pub proof fn content_reaches_from_edge_to_edge(items: Seq<TextItem>)
    requires
        forall|k: int|
            0 <= k < items.len() ==> units::fits(
                (#[trigger] items[k]).x.emu + items[k].width.emu,
            ) && units::fits(items[k].y.emu + items[k].height.emu),
    ensures
        items.len() == 0 ==> docx_layout::item_bounds(items) is None,
        items.len() > 0 ==> {
            &&& docx_layout::item_bounds(items) matches Some(b)
            &&& forall|k: int|
                0 <= k < items.len() ==> b.x.emu <= (#[trigger] items[k]).x.emu && b.y.emu
                    <= items[k].y.emu
            &&& exists|k: int| 0 <= k < items.len() && (#[trigger] items[k]).x == b.x
            &&& exists|k: int| 0 <= k < items.len() && (#[trigger] items[k]).y == b.y
            &&& exists|k: int|
                0 <= k < items.len() && b.width.emu == units::sat(
                    (#[trigger] items[k]).x.emu + items[k].width.emu - b.x.emu,
                ) && forall|j: int|
                    0 <= j < items.len() ==> (#[trigger] items[j]).x.emu + items[j].width.emu
                        <= items[k].x.emu + items[k].width.emu
            &&& exists|k: int|
                0 <= k < items.len() && b.height.emu == units::sat(
                    (#[trigger] items[k]).y.emu + items[k].height.emu - b.y.emu,
                ) && forall|j: int|
                    0 <= j < items.len() ==> (#[trigger] items[j]).y.emu + items[j].height.emu
                        <= items[k].y.emu + items[k].height.emu
        },
{
    if items.len() > 0 {
        let n = items.len() as int;
        lemma_edges(items, n);
        let e = docx_layout::outer_edges(items, n);
        let k2 = choose|k: int|
            0 <= k < n && (#[trigger] items[k]).x.emu + items[k].width.emu == e.2.emu;
        let k3 = choose|k: int|
            0 <= k < n && (#[trigger] items[k]).y.emu + items[k].height.emu == e.3.emu;
        let b = docx_layout::item_bounds(items)->0;
        assert(b.width.emu == units::sat(items[k2].x.emu + items[k2].width.emu - b.x.emu));
        assert(b.height.emu == units::sat(items[k3].y.emu + items[k3].height.emu - b.y.emu));
    }
}

// ── Annotations ────────────────────────────────────────────────────────

/// The words of links are gathered in the order in which they were drawn: those of
/// a hyperlink with its address, those of a link to a bookmark without one, each
/// with the box and the link that it belongs to.
pub proof fn words_of_links_are_gathered_in_order(cmds: Seq<DrawCommand>, n: int)
    requires
        0 < n <= cmds.len(),
    ensures
        ({
            let before = docx_layout::spans_of(cmds, n - 1);
            let after = docx_layout::spans_of(cmds, n);
            let c = cmds[n - 1];
            &&& docx_layout::spans_of(cmds, 0).len() == 0
            &&& !(c is LinkAnnotation || c is InternalLink) ==> after == before
            &&& c is LinkAnnotation || c is InternalLink ==> after.len() == before.len() + 1
                && after.take(before.len() as int) == before
            &&& c matches DrawCommand::LinkAnnotation { rect, url, target } ==> after.last().uri
                == Some(url@) && after.last().target == target && after.last().rect.x
                == rect.origin.x && after.last().rect.y == rect.origin.y && after.last().rect.width
                == rect.size.width && after.last().rect.height == rect.size.height
            &&& c matches DrawCommand::InternalLink { rect, target, .. } ==> after.last().uri is None
                && after.last().target == target && after.last().rect.x == rect.origin.x
                && after.last().rect.y == rect.origin.y && after.last().rect.width
                == rect.size.width && after.last().rect.height == rect.size.height
        }),
{
    let before = docx_layout::spans_of(cmds, n - 1);
    let after = docx_layout::spans_of(cmds, n);
    if cmds[n - 1] is LinkAnnotation || cmds[n - 1] is InternalLink {
        assert(after.take(before.len() as int) =~= before);
    }
}

/// A link of a single word is annotated with the word's own box and address.
pub proof fn single_words_are_annotated_as_they_are(
    a: DocumentAnnotation,
    spans: Seq<SpanView>,
    i: int,
)
    requires
        0 <= i < spans.len(),
        docx_layout::is_link_annotation(a, spans, i, i + 1),
    ensures
        a.rect == Some(spans[i].rect),
        a.quadpoint_rects@.len() == 0,
        docx_layout::opt_text(a.uri) == spans[i].uri,
        a.title is None && a.contents is None && a.created is None && a.modified is None,
{
    let rects = docx_layout::rects_of(spans, i, i + 1);
    reveal_with_fuel(docx_layout::line_boxes, 2);
    reveal_with_fuel(docx_layout::hull_of, 2);
    assert(docx_layout::line_boxes(rects, 0) =~= seq![]);
    assert(docx_layout::line_boxes(rects, 1) =~= seq![rects[0]]);
}

/// Two words of a link that stand on one line, less than a hundredth of a point
/// apart in place and height, are annotated with one box from the left end of the
/// one to the right end of the other; two on different lines with a box each.
pub proof fn words_of_a_line_are_annotated_together(
    a: DocumentAnnotation,
    spans: Seq<SpanView>,
    i: int,
)
    requires
        0 <= i,
        i + 1 < spans.len(),
        docx_layout::is_link_annotation(a, spans, i, i + 2),
        units::fits(spans[i].rect.x.emu + spans[i].rect.width.emu),
        units::fits(spans[i + 1].rect.x.emu + spans[i + 1].rect.width.emu),
        spans[i].rect.x.emu <= spans[i + 1].rect.x.emu,
        spans[i].rect.x.emu + spans[i].rect.width.emu <= spans[i + 1].rect.x.emu
            + spans[i + 1].rect.width.emu,
    ensures
        ({
            let (p, q) = (spans[i].rect, spans[i + 1].rect);
            let level = -127 <= p.y.emu - q.y.emu <= 127 && -127 <= p.height.emu - q.height.emu
                <= 127;
            &&& level ==> {
                &&& a.quadpoint_rects@.len() == 0
                &&& a.rect matches Some(r) && r.x == p.x && r.y == p.y && r.height == p.height
                    && r.width.emu == units::sat(q.x.emu + q.width.emu - p.x.emu)
            }
            &&& !level ==> a.quadpoint_rects@ == seq![p, q]
            &&& docx_layout::opt_text(a.uri) == spans[i].uri
        }),
{
    let rects = docx_layout::rects_of(spans, i, i + 2);
    reveal_with_fuel(docx_layout::line_boxes, 3);
    reveal_with_fuel(docx_layout::hull_of, 2);
    assert(docx_layout::line_boxes(rects, 0) =~= seq![]);
    assert(docx_layout::line_boxes(rects, 1) =~= seq![rects[0]]);
    let two = docx_layout::line_boxes(rects, 2);
    assert(rects[0] == spans[i].rect && rects[1] == spans[i + 1].rect);
    if docx_layout::same_line(rects[0], rects[1]) {
        assert(two =~= seq![docx_layout::widened(rects[0], rects[1])]);
    } else {
        assert(two =~= seq![rects[0], rects[1]]);
    }
}

proof fn lemma_run_end(spans: Seq<SpanView>, target: usize, j: int)
    requires
        0 <= j <= spans.len(),
    ensures
        j <= docx_layout::run_end(spans, target, j) <= spans.len(),
        forall|k: int|
            j <= k < docx_layout::run_end(spans, target, j) ==> (#[trigger] spans[k]).target
                == target,
        docx_layout::run_end(spans, target, j) < spans.len() ==> spans[docx_layout::run_end(
            spans,
            target,
            j,
        )].target != target,
    decreases spans.len() - j,
{
    if j < spans.len() && spans[j].target == target {
        lemma_run_end(spans, target, j + 1);
    }
}

/// Words that follow each other belong to one annotation exactly where they belong
/// to one link: the first annotation takes all words of the first link, and the
/// others are those of the words behind them.
pub proof fn links_are_annotated_once(out: Seq<DocumentAnnotation>, spans: Seq<SpanView>, i: int)
    requires
        0 <= i < spans.len(),
        docx_layout::are_link_annotations(out, spans, i),
    ensures
        out.len() > 0,
        exists|j: int|
            {
                &&& i < j <= spans.len()
                &&& forall|k: int| i <= k < j ==> (#[trigger] spans[k]).target == spans[i].target
                &&& j < spans.len() ==> spans[j].target != spans[i].target
                &&& #[trigger] docx_layout::is_link_annotation(out[0], spans, i, j)
                &&& docx_layout::are_link_annotations(out.skip(1), spans, j)
            },
{
    let j = docx_layout::run_end(spans, spans[i].target, i + 1);
    lemma_run_end(spans, spans[i].target, i + 1);
    assert(docx_layout::is_link_annotation(out[0], spans, i, j));
}

// ── Outline and blocks ─────────────────────────────────────────────────

/// A heading enters the outline behind those before it, with its own level and
/// title and the page that it stands on, and nothing of the others changes.
pub proof fn headings_enter_the_outline_in_order(
    before: Seq<OutlineView>,
    lp: LayoutedPage,
    runs: Seq<RunMetrics>,
    page_index: int,
    n: int,
)
    requires
        0 < n <= lp.commands@.len(),
        0 <= page_index < i32::MAX,
    ensures
        ({
            let s = docx_layout::outline_after(before, lp, runs, page_index, n - 1).entries;
            let t = docx_layout::outline_after(before, lp, runs, page_index, n).entries;
            match lp.commands@[n - 1] {
                DrawCommand::Outline(OutlineMark::Begin(h)) => {
                    &&& t.len() == s.len() + 1
                    &&& t.take(s.len() as int) == s
                    &&& t.last().level == h.level
                    &&& t.last().title == h.title@
                    &&& t.last().page_index == page_index
                    &&& t.last().y_pdf is None
                },
                DrawCommand::Text { position, .. } => {
                    &&& t.len() == s.len()
                    &&& forall|k: int|
                        0 <= k < s.len() ==> {
                            &&& (#[trigger] t[k]).level == s[k].level
                            &&& t[k].title == s[k].title
                            &&& t[k].page_index == s[k].page_index
                            &&& s[k].y_pdf is Some ==> t[k].y_pdf == s[k].y_pdf
                        }
                },
                _ => t == s,
            }
        }),
{
    let s = docx_layout::outline_after(before, lp, runs, page_index, n - 1);
    let t = docx_layout::outline_after(before, lp, runs, page_index, n);
    if lp.commands@[n - 1] is Outline && lp.commands@[n - 1]->Outline_0 is Begin {
        assert(t.entries.take(s.entries.len() as int) =~= s.entries);
    }
}

/// A heading is found at the top of its first text, measured from the foot of the
/// page.
pub proof fn headings_are_found_at_the_top_of_their_text(
    before: Seq<OutlineView>,
    lp: LayoutedPage,
    runs: Seq<RunMetrics>,
    page_index: int,
    b: int,
)
    requires
        0 <= b,
        b + 1 < lp.commands@.len(),
        lp.commands@[b] matches DrawCommand::Outline(OutlineMark::Begin(_)),
        lp.commands@[b + 1] is Text,
        units::fits(lp.commands@[b + 1]->Text_position.y.emu - runs[b + 1].ascent.emu),
    ensures
        ({
            let t = docx_layout::outline_after(before, lp, runs, page_index, b + 2).entries;
            let top = lp.commands@[b + 1]->Text_position.y.emu - runs[b + 1].ascent.emu;
            &&& t.len() > 0
            &&& t.last().y_pdf matches Some(y) && y.emu == units::sat(
                lp.page_size.height.emu - top,
            )
        }),
{
    let s0 = docx_layout::outline_after(before, lp, runs, page_index, b);
    let s1 = docx_layout::outline_after(before, lp, runs, page_index, b + 1);
    let s2 = docx_layout::outline_after(before, lp, runs, page_index, b + 2);
    let at = s0.entries.len() as int;
    assert(s1.open[s0.open.len() as int] == at);
    assert(s1.open.contains(at));
    assert(s2.entries.last() == s2.entries[at]);
}

/// A block stands on the first page on which it has content, and on none where it
/// has none.
pub proof fn blocks_stand_on_their_first_page(
    layouted: Seq<LayoutedPage>,
    runs: Seq<Vec<RunMetrics>>,
    r: NativeLayout,
    words: bool,
    annotations: bool,
    b: usize,
    p: int,
)
    requires
        docx_layout::is_layout(r, layouted, runs, words, annotations),
        0 <= p <= layouted.len(),
        forall|q: int| 0 <= q < p ==> !(#[trigger] layouted[q]).block_starts@.contains(b),
        p < layouted.len() ==> layouted[p].block_starts@.contains(b),
    ensures
        p < layouted.len() ==> r.block_pages@.contains_key(b) && r.block_pages@[b] == p,
        p == layouted.len() ==> !r.block_pages@.contains_key(b),
{
    let n = layouted.len() as int;
    if p < n {
        assert(docx_layout::starts_before(layouted, n, b));
        assert(r.block_pages@.contains_key(b));
        let q = r.block_pages@[b] as int;
        assert(layouted[q].block_starts@.contains(b));
        if q > p {
            assert(docx_layout::starts_before(layouted, q, b));
        }
    } else {
        assert(!docx_layout::starts_before(layouted, n, b));
    }
}

}
