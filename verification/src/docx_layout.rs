//! From laid-out pages to pages of text items, an outline, and the pages that
//! body blocks start on.
use crate::draw_command::{DrawCommand, LayoutedPage, OutlineMark, RgbColor};
use crate::geometry::Rect;
use crate::text;
use crate::types::{DocumentAnnotation, OutlineTarget, Page, PageExtras, TextItem, WordBox};
use crate::units::Pt;
use std::collections::HashMap;
use vstd::prelude::*;

verus! {

broadcast use vstd::std_specs::hash::group_hash_axioms;

/// Everything that is read off a laid-out document.
#[derive(Debug)]
pub struct NativeLayout {
    /// One page per physical page, in order.
    pub pages: Vec<Page>,
    /// Outline entries in reading order.
    pub outline: Vec<OutlineTarget>,
    /// The first page that each body block has content on, counted from 0.
    pub block_pages: HashMap<usize, usize>,
}

/// What a text command measures in the font that it was laid out with.
#[derive(Debug, Clone)]
pub struct RunMetrics {
    /// How far the whole text advances.
    pub advance: Pt,
    /// Height above the baseline.
    pub ascent: Pt,
    /// Depth below the baseline, positive downwards.
    pub descent: Pt,
    /// `prefix[k]` is how far the first `k` characters advance.
    pub prefix: Vec<Pt>,
}

// ── Text items ─────────────────────────────────────────────────────────

/// The text of an optional string.
pub open spec fn opt_text(s: Option<String>) -> Option<Seq<char>> {
    match s {
        Some(t) => Some(t@),
        None => None,
    }
}

/// A colour as eight hexadecimal digits, opaque.
pub open spec fn argb_text(c: RgbColor) -> Seq<char> {
    "ff"@ + text::hex(c.r) + text::hex(c.g) + text::hex(c.b)
}

/// Whether `w` is the box of the word `s[a..b]` of a text at `(x, y)`.
pub open spec fn is_word_box(
    w: WordBox,
    s: Seq<char>,
    range: (usize, usize),
    prefix: Seq<Pt>,
    x: Pt,
    y: Pt,
    height: Pt,
) -> bool {
    &&& w.text@ == s.subrange(range.0 as int, range.1 as int)
    &&& w.x == x.spec_plus(prefix[range.0 as int])
    &&& w.y == y
    &&& w.width == prefix[range.1 as int].spec_minus(prefix[range.0 as int])
    &&& w.height == height
}

/// Whether `words` are the boxes of all words of a text, in order.
pub open spec fn are_word_boxes(
    words: Seq<WordBox>,
    s: Seq<char>,
    prefix: Seq<Pt>,
    x: Pt,
    y: Pt,
    height: Pt,
) -> bool {
    exists|ranges: Seq<(usize, usize)>|
        {
            &&& text::are_words(s, ranges)
            &&& words.len() == ranges.len()
            &&& forall|k: int|
                0 <= k < ranges.len() ==> is_word_box(
                    #[trigger] words[k],
                    s,
                    ranges[k],
                    prefix,
                    x,
                    y,
                    height,
                )
        }
}

/// The boxes of a text's words, read off the advances of its prefixes.
fn word_boxes(s: &Vec<char>, prefix: &Vec<Pt>, x: Pt, y: Pt, height: Pt) -> (r: Vec<WordBox>)
    requires
        prefix@.len() == s@.len() + 1,
    ensures
        are_word_boxes(r@, s@, prefix@, x, y, height),
{
    let ranges = text::words_of(s);
    let mut out: Vec<WordBox> = Vec::new();
    let mut k: usize = 0;
    while k < ranges.len()
        invariant
            k <= ranges@.len(),
            prefix@.len() == s@.len() + 1,
            text::are_words(s@, ranges@),
            out@.len() == k,
            forall|j: int|
                0 <= j < k ==> is_word_box(
                    #[trigger] out@[j],
                    s@,
                    ranges@[j],
                    prefix@,
                    x,
                    y,
                    height,
                ),
        decreases ranges@.len() - k,
    {
        let (a, b) = ranges[k];
        assert(text::is_word(s@, ranges@[k as int].0 as int, ranges@[k as int].1 as int));
        out.push(
            WordBox {
                text: text::string_of(s, a, b),
                x: x.plus(prefix[a]),
                y,
                width: prefix[b].minus(prefix[a]),
                height,
            },
        );
        k += 1;
    }
    out
}

/// Whether a command makes a text item.
pub open spec fn makes_item(c: DrawCommand) -> bool {
    c is Text || c is EmojiCluster
}

/// Whether `item` is what a text command and its measures make, apart from the
/// link that is attached to it later. The box hangs from the baseline by the
/// ascent.
pub open spec fn is_text_item(
    item: TextItem,
    c: DrawCommand,
    m: RunMetrics,
    emit_word_boxes: bool,
) -> bool {
    match c {
        DrawCommand::Text { position, text, font_family, font_size, bold, color, .. } => {
            &&& item.text@ == text@
            &&& item.x == position.x
            &&& item.y == position.y.spec_minus(m.ascent)
            &&& item.width == m.advance
            &&& item.height == m.ascent.spec_plus(m.descent)
            &&& opt_text(item.font_name) == Some(font_family@)
            &&& item.font_size == Some(font_size)
            &&& item.font_height == Some(font_size)
            &&& item.font_ascent == Some(m.ascent)
            &&& item.font_descent == Some(Pt::spec_zero().spec_minus(m.descent))
            &&& item.font_weight == Some(
                if bold {
                    700i32
                } else {
                    400i32
                },
            )
            &&& item.text_width == Some(m.advance)
            &&& opt_text(item.fill_color) == Some(argb_text(color))
            &&& if emit_word_boxes {
                are_word_boxes(item.words@, text@, m.prefix@, item.x, item.y, item.height)
            } else {
                item.words@.len() == 0
            }
        },
        DrawCommand::EmojiCluster { rect, text, size, .. } => {
            &&& item.text@ == text@
            &&& item.area() == rect.spec_flat()
            &&& item.font_name is None
            &&& item.font_size == Some(size)
            &&& item.font_height is None
            &&& item.font_ascent is None
            &&& item.font_descent is None
            &&& item.font_weight is None
            &&& item.text_width is None
            &&& item.fill_color is None
            &&& item.words@.len() == 0
        },
        _ => false,
    }
}

/// Whether an item has nothing that only another source of items would give.
pub open spec fn is_plain_item(item: TextItem) -> bool {
    &&& item.rotation.units == 0
    &&& !item.font_is_buggy
    &&& item.mcid is None
    &&& item.stroke_color is None
    &&& item.char_codes@.len() == 0
    &&& !item.trailing_space_generated
    &&& !item.strike
}

/// Whether the measures fit a command: one advance for each prefix of a text.
pub open spec fn metrics_fit(c: DrawCommand, m: RunMetrics) -> bool {
    c matches DrawCommand::Text { text, .. } ==> m.prefix@.len() == text@.len() + 1
}

fn color_text(c: RgbColor) -> (r: String)
    ensures
        r@ == argb_text(c),
{
    let mut s = String::new();
    text::push_text(&mut s, "ff");
    assert(s@ =~= "ff"@);
    text::push_hex(&mut s, c.r);
    text::push_hex(&mut s, c.g);
    text::push_hex(&mut s, c.b);
    s
}

/// The item that a text or emoji command makes; `None` for the others.
fn item_of(c: &DrawCommand, m: &RunMetrics, emit_word_boxes: bool) -> (r: Option<TextItem>)
    requires
        emit_word_boxes ==> metrics_fit(*c, *m),
    ensures
        match r {
            Some(item) => is_text_item(item, *c, *m, emit_word_boxes) && is_plain_item(item)
                && item.link is None,
            None => !makes_item(*c),
        },
{
    match c {
        DrawCommand::Text { position, text, font_family, font_size, bold, color, .. } => {
            let top = position.y.minus(m.ascent);
            let height = m.ascent.plus(m.descent);
            let words = if emit_word_boxes {
                let chars = text::chars_of(text.as_str());
                word_boxes(&chars, &m.prefix, position.x, top, height)
            } else {
                Vec::new()
            };
            let mut item = TextItem::default();
            item.text = text.clone();
            item.x = position.x;
            item.y = top;
            item.width = m.advance;
            item.height = height;
            item.font_name = Some(font_family.clone());
            item.font_size = Some(*font_size);
            item.font_height = Some(*font_size);
            item.font_ascent = Some(m.ascent);
            item.font_descent = Some(Pt::zero().minus(m.descent));
            item.font_weight = Some(
                if *bold {
                    700i32
                } else {
                    400i32
                },
            );
            item.text_width = Some(m.advance);
            item.fill_color = Some(color_text(*color));
            item.words = words;
            Some(item)
        },
        DrawCommand::EmojiCluster { rect, text, size, .. } => {
            let mut item = TextItem::default();
            item.text = text.clone();
            item.x = rect.origin.x;
            item.y = rect.origin.y;
            item.width = rect.size.width;
            item.height = rect.size.height;
            item.font_size = Some(*size);
            Some(item)
        },
        _ => None,
    }
}

/// The commands among the first `n` that make text items.
pub open spec fn item_commands(cmds: Seq<DrawCommand>, n: int) -> Seq<int>
    decreases n,
{
    if n <= 0 {
        seq![]
    } else if makes_item(cmds[n - 1]) {
        item_commands(cmds, n - 1).push(n - 1)
    } else {
        item_commands(cmds, n - 1)
    }
}

// ── Links ──────────────────────────────────────────────────────────────

/// The hyperlink words among the first `n` commands: box and address.
pub open spec fn links_of(cmds: Seq<DrawCommand>, n: int) -> Seq<(Rect, Seq<char>)>
    decreases n,
{
    if n <= 0 {
        seq![]
    } else {
        match cmds[n - 1] {
            DrawCommand::LinkAnnotation { rect, url, .. } => links_of(cmds, n - 1).push(
                (rect.spec_flat(), url@),
            ),
            _ => links_of(cmds, n - 1),
        }
    }
}

/// Whether `item` covers at least half of the link box `r`, along each axis.
pub open spec fn covers_half(item: Rect, r: Rect) -> bool {
    &&& 2 * (item.spec_right().spec_min(r.spec_right()).emu - item.x.spec_max(r.x).emu)
        >= r.width.emu
    &&& 2 * (item.spec_bottom().spec_min(r.spec_bottom()).emu - item.y.spec_max(r.y).emu)
        >= r.height.emu
}

/// The address of the first link from the `i`th on that an item covers.
pub open spec fn link_from(item: Rect, links: Seq<(Rect, Seq<char>)>, i: int) -> Option<Seq<char>>
    decreases links.len() - i,
{
    if i < 0 || i >= links.len() {
        None
    } else if covers_half(item, links[i].0) {
        Some(links[i].1)
    } else {
        link_from(item, links, i + 1)
    }
}

fn covers_half_of(item: &Rect, r: &Rect) -> (b: bool)
    ensures
        b == covers_half(*item, *r),
{
    let ox: i128 = item.right_edge().min(r.right_edge()).emu as i128 - item.x.max(r.x).emu as i128;
    let oy: i128 = item.bottom_edge().min(r.bottom_edge()).emu as i128 - item.y.max(
        r.y,
    ).emu as i128;
    2 * ox >= r.width.emu as i128 && 2 * oy >= r.height.emu as i128
}

/// The contents of a list of link boxes.
pub open spec fn link_views(links: Seq<(Rect, String)>) -> Seq<(Rect, Seq<char>)> {
    links.map_values(|l: (Rect, String)| (l.0, l.1@))
}

/// Whether `b` is `a` with the link that its box calls for, where it had none.
pub open spec fn linked(a: TextItem, b: TextItem, links: Seq<(Rect, Seq<char>)>) -> bool {
    &&& b == (TextItem { link: b.link, ..a })
    &&& if a.link is Some {
        b.link == a.link
    } else {
        opt_text(b.link) == link_from(a.area(), links, 0)
    }
}

/// Attaches to each item without a link the first link that it covers.
pub fn assign_links(items: &mut Vec<TextItem>, links: &Vec<(Rect, String)>)
    ensures
        final(items)@.len() == old(items)@.len(),
        forall|i: int|
            0 <= i < old(items)@.len() ==> linked(
                old(items)@[i],
                #[trigger] final(items)@[i],
                link_views(links@),
            ),
{
    let ghost start = items@;
    let ghost views = link_views(links@);
    let mut i: usize = 0;
    while i < items.len()
        invariant
            i <= items@.len(),
            items@.len() == start.len(),
            views == link_views(links@),
            forall|j: int| 0 <= j < i ==> linked(start[j], #[trigger] items@[j], views),
            forall|j: int| i <= j < start.len() ==> #[trigger] items@[j] == start[j],
        decreases items@.len() - i,
    {
        if items[i].link.is_none() {
            let area = items[i].bounds();
            let mut found: Option<String> = None;
            let mut k: usize = 0;
            while k < links.len() && found.is_none()
                invariant
                    k <= links@.len(),
                    views == link_views(links@),
                    match found {
                        None => link_from(area, views, 0) == link_from(area, views, k as int),
                        Some(u) => link_from(area, views, 0) == Some(u@),
                    },
                decreases links@.len() - k,
            {
                assert(views[k as int] == (links@[k as int].0, links@[k as int].1@));
                if covers_half_of(&area, &links[k].0) {
                    found = Some(links[k].1.clone());
                }
                k += 1;
            }
            items[i].link = found;
        }
        i += 1;
    }
}

// ── Link annotations ───────────────────────────────────────────────────

/// One word of a link: which hyperlink it belongs to, its address, its box.
#[derive(Debug)]
pub struct LinkSpan {
    pub target: usize,
    pub uri: Option<String>,
    pub rect: Rect,
}

/// The contents of a [`LinkSpan`].
pub struct SpanView {
    pub target: usize,
    pub uri: Option<Seq<char>>,
    pub rect: Rect,
}

impl View for LinkSpan {
    type V = SpanView;

    open spec fn view(&self) -> SpanView {
        SpanView { target: self.target, uri: opt_text(self.uri), rect: self.rect }
    }
}

/// The contents of some spans.
pub open spec fn span_views(spans: Seq<LinkSpan>) -> Seq<SpanView> {
    spans.map_values(|s: LinkSpan| s@)
}

/// The link words among the first `n` commands, inner links with no address.
pub open spec fn spans_of(cmds: Seq<DrawCommand>, n: int) -> Seq<SpanView>
    decreases n,
{
    if n <= 0 {
        seq![]
    } else {
        match cmds[n - 1] {
            DrawCommand::LinkAnnotation { rect, url, target } => spans_of(cmds, n - 1).push(
                SpanView { target, uri: Some(url@), rect: rect.spec_flat() },
            ),
            DrawCommand::InternalLink { rect, target, .. } => spans_of(cmds, n - 1).push(
                SpanView { target, uri: None, rect: rect.spec_flat() },
            ),
            _ => spans_of(cmds, n - 1),
        }
    }
}

/// Whether two boxes lie on one line, to a hundredth of a point.
pub open spec fn same_line(a: Rect, b: Rect) -> bool {
    -127 <= a.y.emu - b.y.emu <= 127 && -127 <= a.height.emu - b.height.emu <= 127
}

/// `q` widened so that it reaches as far left and right as `r` does.
pub open spec fn widened(q: Rect, r: Rect) -> Rect {
    let x0 = q.x.spec_min(r.x);
    Rect { x: x0, width: q.spec_right().spec_max(r.spec_right()).spec_minus(x0), ..q }
}

/// One box per line of the first `n` boxes: a box on the line of the one
/// before it is merged into it.
pub open spec fn line_boxes(rects: Seq<Rect>, n: int) -> Seq<Rect>
    decreases n,
{
    if n <= 0 {
        seq![]
    } else {
        let q = line_boxes(rects, n - 1);
        if q.len() > 0 && same_line(q.last(), rects[n - 1]) {
            q.drop_last().push(widened(q.last(), rects[n - 1]))
        } else {
            q.push(rects[n - 1])
        }
    }
}

/// The smallest box over the first `n` boxes.
pub open spec fn hull_of(rects: Seq<Rect>, n: int) -> Rect
    decreases n,
{
    if n <= 1 {
        rects[0]
    } else {
        hull_of(rects, n - 1).spec_hull(rects[n - 1])
    }
}

/// Where the hyperlink that the `j`th span belongs to ends.
pub open spec fn run_end(spans: Seq<SpanView>, target: usize, j: int) -> int
    decreases spans.len() - j,
{
    if 0 <= j < spans.len() && spans[j].target == target {
        run_end(spans, target, j + 1)
    } else {
        j
    }
}

/// The boxes of the spans from `i` to before `j`.
pub open spec fn rects_of(spans: Seq<SpanView>, i: int, j: int) -> Seq<Rect> {
    Seq::new((j - i) as nat, |k: int| spans[i + k].rect)
}

/// Whether `a` is the annotation of the hyperlink that is made of the spans
/// from `i` to before `j`: one box over all of them, and one per line where
/// there is more than one line.
pub open spec fn is_link_annotation(
    a: DocumentAnnotation,
    spans: Seq<SpanView>,
    i: int,
    j: int,
) -> bool {
    let quads = line_boxes(rects_of(spans, i, j), j - i);
    &&& a.subtype@ == "link"@
    &&& a.contents is None
    &&& a.created is None
    &&& a.modified is None
    &&& a.title is None
    &&& a.rect == Some(hull_of(quads, quads.len() as int))
    &&& a.quadpoint_rects@ == (if quads.len() > 1 {
        quads
    } else {
        seq![]
    })
    &&& opt_text(a.uri) == spans[i].uri
}

/// Whether `out` are the annotations of the spans from `i` on: one for each
/// longest run of spans that belong to one hyperlink.
pub open spec fn are_link_annotations(
    out: Seq<DocumentAnnotation>,
    spans: Seq<SpanView>,
    i: int,
) -> bool
    decreases out.len(),
{
    if i < 0 || i >= spans.len() {
        out.len() == 0
    } else if out.len() == 0 {
        false
    } else {
        let j = run_end(spans, spans[i].target, i + 1);
        &&& is_link_annotation(out[0], spans, i, j)
        &&& are_link_annotations(out.skip(1), spans, j)
    }
}

proof fn lemma_line_boxes_nonempty(rects: Seq<Rect>, n: int)
    requires
        n >= 1,
    ensures
        line_boxes(rects, n).len() >= 1,
    decreases n,
{
    if n > 1 {
        lemma_line_boxes_nonempty(rects, n - 1);
    }
}

fn abs_diff_small(a: Pt, b: Pt) -> (r: bool)
    ensures
        r == (-127 <= a.emu - b.emu <= 127),
{
    let d: i128 = a.emu as i128 - b.emu as i128;
    -127 <= d && d <= 127
}

/// The annotation of one hyperlink.
fn link_annotation(spans: &Vec<LinkSpan>, i: usize, j: usize) -> (r: DocumentAnnotation)
    requires
        i < j <= spans@.len(),
    ensures
        is_link_annotation(r, span_views(spans@), i as int, j as int),
{
    let ghost views = span_views(spans@);
    let ghost rects = rects_of(views, i as int, j as int);
    let mut quads: Vec<Rect> = Vec::new();
    let mut k: usize = i;
    while k < j
        invariant
            i <= k <= j <= spans@.len(),
            views == span_views(spans@),
            rects == rects_of(views, i as int, j as int),
            quads@ == line_boxes(rects, k - i),
        decreases j - k,
    {
        let r = spans[k].rect;
        assert(views[k as int].rect == r);
        assert(rects[k - i] == r);
        let n: usize = quads.len();
        if n > 0 && abs_diff_small(quads[n - 1].y, r.y) && abs_diff_small(
            quads[n - 1].height,
            r.height,
        ) {
            let q = quads[n - 1];
            let x0 = q.x.min(r.x);
            let wide = Rect {
                x: x0,
                y: q.y,
                width: q.right_edge().max(r.right_edge()).minus(x0),
                height: q.height,
            };
            quads.set(n - 1, wide);
            assert(quads@ =~= line_boxes(rects, k - i).drop_last().push(wide));
        } else {
            quads.push(r);
        }
        k += 1;
    }
    proof {
        lemma_line_boxes_nonempty(rects, j - i);
    }
    let mut rect = quads[0];
    let mut q: usize = 1;
    while q < quads.len()
        invariant
            1 <= q <= quads@.len(),
            rect == hull_of(quads@, q as int),
        decreases quads@.len() - q,
    {
        rect = rect.hull_with(&quads[q]);
        q += 1;
    }
    let uri = match &spans[i].uri {
        Some(u) => Some(u.clone()),
        None => None,
    };
    assert(views[i as int] == spans@[i as int]@);
    let several = quads.len() > 1;
    DocumentAnnotation {
        subtype: "link".to_string(),
        contents: None,
        created: None,
        modified: None,
        title: None,
        rect: Some(rect),
        quadpoint_rects: if several {
            quads
        } else {
            Vec::new()
        },
        uri,
    }
}

/// Whether the `k`th of some annotations stands for the spans from `starts[k]`
/// to before `starts[k + 1]`.
spec fn built_at(
    out: Seq<DocumentAnnotation>,
    spans: Seq<SpanView>,
    starts: Seq<int>,
    k: int,
) -> bool {
    &&& 0 <= starts[k] < spans.len()
    &&& starts[k + 1] == run_end(spans, spans[starts[k]].target, starts[k] + 1)
    &&& is_link_annotation(out[k], spans, starts[k], starts[k + 1])
}

proof fn lemma_built(out: Seq<DocumentAnnotation>, spans: Seq<SpanView>, starts: Seq<int>, k: int)
    requires
        starts.len() == out.len() + 1,
        forall|l: int| 0 <= l < out.len() ==> #[trigger] built_at(out, spans, starts, l),
        0 <= k <= out.len(),
        starts[out.len() as int] == spans.len(),
    ensures
        are_link_annotations(out.skip(k), spans, starts[k]),
    decreases out.len() - k,
{
    if k < out.len() {
        lemma_built(out, spans, starts, k + 1);
        assert(built_at(out, spans, starts, k));
        assert(out.skip(k).skip(1) =~= out.skip(k + 1));
        assert(out.skip(k)[0] == out[k]);
    }
}

/// Folds link words into annotations. The words of one hyperlink, which follow
/// each other, become one annotation; two hyperlinks to one address stay two.
pub fn merge_link_annotations(spans: &Vec<LinkSpan>) -> (r: Vec<DocumentAnnotation>)
    ensures
        are_link_annotations(r@, span_views(spans@), 0),
{
    let ghost views = span_views(spans@);
    let mut out: Vec<DocumentAnnotation> = Vec::new();
    let ghost mut starts: Seq<int> = seq![0int];
    let mut i: usize = 0;
    while i < spans.len()
        invariant
            i <= spans@.len(),
            views == span_views(spans@),
            views.len() == spans@.len(),
            starts.len() == out@.len() + 1,
            starts[0] == 0,
            starts[out@.len() as int] == i,
            forall|l: int| 0 <= l < out@.len() ==> #[trigger] built_at(out@, views, starts, l),
        decreases spans@.len() - i,
    {
        let target: usize = spans[i].target;
        assert(views[i as int].target == target);
        let mut j: usize = i + 1;
        while j < spans.len() && spans[j].target == target
            invariant
                i < j <= spans@.len(),
                views == span_views(spans@),
                run_end(views, target, i + 1) == run_end(views, target, j as int),
            decreases spans@.len() - j,
        {
            assert(views[j as int].target == target);
            j += 1;
        }
        assert(j < spans@.len() ==> views[j as int].target != target);
        assert(run_end(views, target, i + 1) == j);
        let ghost before = out@;
        let ghost old_starts = starts;
        out.push(link_annotation(spans, i, j));
        proof {
            starts = starts.push(j as int);
            assert forall|l: int| 0 <= l < out@.len() implies #[trigger] built_at(
                out@,
                views,
                starts,
                l,
            ) by {
                if l < before.len() {
                    assert(built_at(before, views, old_starts, l));
                }
            }
        }
        i = j;
    }
    proof {
        lemma_built(out@, views, starts, 0);
        assert(out@.skip(0) =~= out@);
    }
    out
}

// ── Content bounds ─────────────────────────────────────────────────────

/// The least left and top edges and the greatest right and bottom edges of the
/// first `n` items.
pub open spec fn outer_edges(items: Seq<TextItem>, n: int) -> (Pt, Pt, Pt, Pt)
    decreases n,
{
    let a = items[n - 1].area();
    if n <= 1 {
        let f = items[0].area();
        (f.x, f.y, f.spec_right(), f.spec_bottom())
    } else {
        let e = outer_edges(items, n - 1);
        (
            e.0.spec_min(a.x),
            e.1.spec_min(a.y),
            e.2.spec_max(a.spec_right()),
            e.3.spec_max(a.spec_bottom()),
        )
    }
}

/// The smallest box over all items, where there are any.
pub open spec fn item_bounds(items: Seq<TextItem>) -> Option<Rect> {
    if items.len() == 0 {
        None
    } else {
        let e = outer_edges(items, items.len() as int);
        Some(Rect { x: e.0, y: e.1, width: e.2.spec_minus(e.0), height: e.3.spec_minus(e.1) })
    }
}

/// The smallest box over all items, where there are any.
pub fn union_bounds(items: &Vec<TextItem>) -> (r: Option<Rect>)
    ensures
        r == item_bounds(items@),
{
    if items.len() == 0 {
        return None;
    }
    let first = items[0].bounds();
    let mut x0 = first.x;
    let mut y0 = first.y;
    let mut x1 = first.right_edge();
    let mut y1 = first.bottom_edge();
    let mut i: usize = 1;
    while i < items.len()
        invariant
            1 <= i <= items@.len(),
            (x0, y0, x1, y1) == outer_edges(items@, i as int),
        decreases items@.len() - i,
    {
        let b = items[i].bounds();
        x0 = x0.min(b.x);
        y0 = y0.min(b.y);
        x1 = x1.max(b.right_edge());
        y1 = y1.max(b.bottom_edge());
        i += 1;
    }
    Some(Rect { x: x0, y: y0, width: x1.minus(x0), height: y1.minus(y0) })
}

proof fn lemma_outer_edges(items: Seq<TextItem>, n: int, k: int)
    requires
        0 <= k < n <= items.len(),
        forall|j: int| 0 <= j < items.len() ==> (#[trigger] items[j]).area().ok(),
    ensures
        outer_edges(items, n).0.emu <= items[k].x.emu,
        outer_edges(items, n).1.emu <= items[k].y.emu,
        items[k].area().spec_right().emu <= outer_edges(items, n).2.emu,
        items[k].area().spec_bottom().emu <= outer_edges(items, n).3.emu,
        -0x2000_0000_0000_0000 <= outer_edges(items, n).0.emu <= outer_edges(items, n).2.emu
            <= 0x2000_0000_0000_0000,
        -0x2000_0000_0000_0000 <= outer_edges(items, n).1.emu <= outer_edges(items, n).3.emu
            <= 0x2000_0000_0000_0000,
    decreases n,
{
    assert(items[n - 1].area().ok());
    assert(items[0].area().ok());
    if n > 1 {
        if k < n - 1 {
            lemma_outer_edges(items, n - 1, k);
        } else {
            lemma_outer_edges(items, n - 1, 0);
        }
    }
}

/// The bounds cover every item.
pub proof fn bounds_cover_every_item(items: Seq<TextItem>, k: int)
    requires
        0 <= k < items.len(),
        forall|j: int| 0 <= j < items.len() ==> (#[trigger] items[j]).area().ok(),
    ensures
        item_bounds(items) is Some,
        item_bounds(items)->0.covers(items[k].area()),
        item_bounds(items)->0.ok(),
{
    lemma_outer_edges(items, items.len() as int, k);
    assert(items[k].area().ok());
}

proof fn lemma_edges_within(items: Seq<TextItem>, n: int, c: Rect)
    requires
        1 <= n <= items.len(),
        forall|j: int| 0 <= j < items.len() ==> (#[trigger] items[j]).area().ok(),
        forall|j: int| 0 <= j < items.len() ==> c.covers((#[trigger] items[j]).area()),
    ensures
        c.x.emu <= outer_edges(items, n).0.emu,
        c.y.emu <= outer_edges(items, n).1.emu,
        outer_edges(items, n).2.emu <= c.x.emu + c.width.emu,
        outer_edges(items, n).3.emu <= c.y.emu + c.height.emu,
    decreases n,
{
    assert(items[n - 1].area().ok() && c.covers(items[n - 1].area()));
    assert(items[0].area().ok() && c.covers(items[0].area()));
    if n > 1 {
        lemma_edges_within(items, n - 1, c);
    }
}

/// No smaller box covers every item.
pub proof fn bounds_are_least(items: Seq<TextItem>, c: Rect)
    requires
        items.len() > 0,
        forall|j: int| 0 <= j < items.len() ==> (#[trigger] items[j]).area().ok(),
        forall|j: int| 0 <= j < items.len() ==> c.covers((#[trigger] items[j]).area()),
    ensures
        c.covers(item_bounds(items)->0),
{
    lemma_edges_within(items, items.len() as int, c);
    lemma_outer_edges(items, items.len() as int, 0);
}

// ── Outline ────────────────────────────────────────────────────────────

/// The contents of an outline entry.
pub struct OutlineView {
    pub level: u8,
    pub title: Seq<char>,
    pub page_index: i32,
    pub y_pdf: Option<Pt>,
}

impl View for OutlineTarget {
    type V = OutlineView;

    open spec fn view(&self) -> OutlineView {
        OutlineView {
            level: self.level,
            title: self.title@,
            page_index: self.page_index,
            y_pdf: self.y_pdf,
        }
    }
}

/// The contents of some outline entries.
pub open spec fn outline_views(v: Seq<OutlineTarget>) -> Seq<OutlineView> {
    v.map_values(|t: OutlineTarget| t@)
}

/// The outline as far as it is known, and which of its headings are open.
pub struct OutlineState {
    pub entries: Seq<OutlineView>,
    pub open: Seq<int>,
}

/// What one command of page `page_index` does to the outline. A heading's
/// mark opens an entry; the first text under it says where it stands, measured
/// from the bottom of the page to the top of the text.
pub open spec fn outline_step(
    s: OutlineState,
    c: DrawCommand,
    m: RunMetrics,
    page_height: Pt,
    page_index: int,
) -> OutlineState {
    match c {
        DrawCommand::Outline(OutlineMark::Begin(h)) => OutlineState {
            entries: s.entries.push(
                OutlineView {
                    level: h.level,
                    title: h.title@,
                    page_index: page_index as i32,
                    y_pdf: None,
                },
            ),
            open: s.open.push(s.entries.len() as int),
        },
        DrawCommand::Outline(OutlineMark::End) => OutlineState {
            entries: s.entries,
            open: if s.open.len() > 0 {
                s.open.drop_last()
            } else {
                s.open
            },
        },
        DrawCommand::Text { position, .. } => OutlineState {
            entries: Seq::new(
                s.entries.len(),
                |i: int|
                    if s.open.contains(i) && s.entries[i].y_pdf is None {
                        OutlineView {
                            y_pdf: Some(
                                page_height.spec_minus(position.y.spec_minus(m.ascent)),
                            ),
                            ..s.entries[i]
                        }
                    } else {
                        s.entries[i]
                    },
            ),
            open: s.open,
        },
        _ => s,
    }
}

/// The outline after the first `n` commands of a page. No heading is open
/// where a page starts.
pub open spec fn outline_after(
    before: Seq<OutlineView>,
    lp: LayoutedPage,
    runs: Seq<RunMetrics>,
    page_index: int,
    n: int,
) -> OutlineState
    decreases n,
{
    if n <= 0 {
        OutlineState { entries: before, open: seq![] }
    } else {
        outline_step(
            outline_after(before, lp, runs, page_index, n - 1),
            lp.commands@[n - 1],
            runs[n - 1],
            lp.page_size.height,
            page_index,
        )
    }
}

/// The outline after the first `n` pages.
pub open spec fn outline_of(layouted: Seq<LayoutedPage>, runs: Seq<Vec<RunMetrics>>, n: int) -> Seq<
    OutlineView,
>
    decreases n,
{
    if n <= 0 {
        seq![]
    } else {
        outline_after(
            outline_of(layouted, runs, n - 1),
            layouted[n - 1],
            runs[n - 1]@,
            n - 1,
            layouted[n - 1].commands@.len() as int,
        ).entries
    }
}

/// Gives every open heading without a place the place `y`.
fn place_headings(outline: &mut Vec<OutlineTarget>, open: &Vec<usize>, y: Pt)
    requires
        forall|k: int| 0 <= k < open@.len() ==> (#[trigger] open@[k]) < old(outline)@.len(),
    ensures
        final(outline)@.len() == old(outline)@.len(),
        forall|i: int|
            0 <= i < old(outline)@.len() ==> (#[trigger] final(outline)@[i])@ == (if exists|k: int|
                0 <= k < open@.len() && #[trigger] open@[k] == i && old(outline)@[i].y_pdf is None {
                OutlineView { y_pdf: Some(y), ..old(outline)@[i]@ }
            } else {
                old(outline)@[i]@
            }),
{
    let ghost start = outline@;
    let mut k: usize = 0;
    while k < open.len()
        invariant
            k <= open@.len(),
            outline@.len() == start.len(),
            forall|j: int| 0 <= j < open@.len() ==> (#[trigger] open@[j]) < start.len(),
            forall|i: int|
                0 <= i < start.len() ==> (#[trigger] outline@[i])@ == (if exists|j: int|
                    0 <= j < k && #[trigger] open@[j] == i && start[i].y_pdf is None {
                    OutlineView { y_pdf: Some(y), ..start[i]@ }
                } else {
                    start[i]@
                }),
        decreases open@.len() - k,
    {
        let i: usize = open[k];
        let ghost before = outline@;
        if outline[i].y_pdf.is_none() {
            outline[i].y_pdf = Some(y);
        }
        proof {
            assert forall|q: int| 0 <= q < start.len() implies (#[trigger] outline@[q])@ == (
            if exists|j: int|
                0 <= j < k + 1 && #[trigger] open@[j] == q && start[q].y_pdf is None {
                OutlineView { y_pdf: Some(y), ..start[q]@ }
            } else {
                start[q]@
            }) by {
                assert(before[q]@ == (if exists|j: int|
                    0 <= j < k && #[trigger] open@[j] == q && start[q].y_pdf is None {
                    OutlineView { y_pdf: Some(y), ..start[q]@ }
                } else {
                    start[q]@
                }));
                if q == i {
                    assert(open@[k as int] == q);
                }
            }
        }
        k += 1;
    }
}

/// A heading's entry takes the place of the text that follows its mark: the
/// two marks of a heading round one text leave one entry, whose height is that
/// of the text's top above the bottom of the page.
pub proof fn heading_stands_at_its_text(
    before: Seq<OutlineView>,
    lp: LayoutedPage,
    runs: Seq<RunMetrics>,
    page_index: int,
    b: int,
)
    requires
        0 <= b,
        b + 2 < lp.commands@.len(),
        lp.commands@[b] matches DrawCommand::Outline(OutlineMark::Begin(_)),
        lp.commands@[b + 1] is Text,
        lp.commands@[b + 2] matches DrawCommand::Outline(OutlineMark::End),
    ensures
        ({
            let s0 = outline_after(before, lp, runs, page_index, b);
            let s3 = outline_after(before, lp, runs, page_index, b + 3);
            &&& s3.entries.len() == s0.entries.len() + 1
            &&& s3.open == s0.open
            &&& s3.entries.last().title == lp.commands@[b]->Outline_0->Begin_0.title@
            &&& s3.entries.last().page_index == page_index as i32
            &&& s3.entries.last().y_pdf == Some(
                lp.page_size.height.spec_minus(
                    lp.commands@[b + 1]->Text_position.y.spec_minus(runs[b + 1].ascent),
                ),
            )
        }),
{
    let s0 = outline_after(before, lp, runs, page_index, b);
    let s1 = outline_after(before, lp, runs, page_index, b + 1);
    let s2 = outline_after(before, lp, runs, page_index, b + 2);
    let s3 = outline_after(before, lp, runs, page_index, b + 3);
    let n = s0.entries.len() as int;
    assert(s1.open[s0.open.len() as int] == n);
    assert(s1.open.contains(n));
    assert(s2.entries[n].y_pdf is Some);
    assert(s3.open =~= s0.open);
}

// ── Pages ──────────────────────────────────────────────────────────────

/// Whether `page` is what the laid-out page `lp` makes.
pub open spec fn is_native_page(
    page: Page,
    lp: LayoutedPage,
    runs: Seq<RunMetrics>,
    page_index: int,
    emit_word_boxes: bool,
    extract_annotations: bool,
) -> bool {
    let n = lp.commands@.len() as int;
    let made = item_commands(lp.commands@, n);
    &&& page.page_number == page_index + 1
    &&& page.page_width == lp.page_size.width
    &&& page.page_height == lp.page_size.height
    &&& page.text_items@.len() == made.len()
    &&& forall|k: int|
        0 <= k < made.len() ==> is_made_item(
            #[trigger] page.text_items@[k],
            lp.commands@,
            runs,
            made[k],
            emit_word_boxes,
        )
    &&& page.content_bounds == item_bounds(page.text_items@)
    &&& match page.annotations {
        Some(a) => extract_annotations && are_link_annotations(a@, spans_of(lp.commands@, n), 0),
        None => !extract_annotations,
    }
    &&& page.extras.nothing()
}

/// Whether `item` is what the `i`th command of a page makes, with the page's
/// link attached that its box calls for.
pub open spec fn is_made_item(
    item: TextItem,
    cmds: Seq<DrawCommand>,
    runs: Seq<RunMetrics>,
    i: int,
    emit_word_boxes: bool,
) -> bool {
    &&& is_text_item(item, cmds[i], runs[i], emit_word_boxes)
    &&& is_plain_item(item)
    &&& opt_text(item.link) == link_from(item.area(), links_of(cmds, cmds.len() as int), 0)
}

/// The items of a page stand in the order of the commands that make them, one
/// for each such command.
pub proof fn items_follow_commands(cmds: Seq<DrawCommand>, n: int)
    requires
        0 <= n <= cmds.len(),
    ensures
        forall|k: int|
            0 <= k < item_commands(cmds, n).len() ==> 0 <= (#[trigger] item_commands(cmds, n)[k])
                < n && makes_item(cmds[item_commands(cmds, n)[k]]),
        forall|k: int, l: int|
            0 <= k < l < item_commands(cmds, n).len() ==> (#[trigger] item_commands(cmds, n)[k]) < (
            #[trigger] item_commands(cmds, n)[l]),
        forall|i: int|
            0 <= i < n && makes_item(#[trigger] cmds[i]) ==> item_commands(cmds, n).contains(i),
    decreases n,
{
    if n > 0 {
        items_follow_commands(cmds, n - 1);
        let a = item_commands(cmds, n - 1);
        let b = item_commands(cmds, n);
        if makes_item(cmds[n - 1]) {
            assert(b == a.push(n - 1));
            assert(b[a.len() as int] == n - 1);
            assert forall|k: int| 0 <= k < b.len() implies 0 <= (#[trigger] b[k]) < n && makes_item(
                cmds[b[k]],
            ) by {
                if k < a.len() {
                    assert(b[k] == a[k]);
                }
            }
            assert forall|i: int| 0 <= i < n && makes_item(#[trigger] cmds[i]) implies b.contains(
                i,
            ) by {
                if i < n - 1 {
                    let k = choose|k: int| 0 <= k < a.len() && a[k] == i;
                    assert(b[k] == i);
                }
            }
        }
    }
}

fn copy_uri(url: &String) -> (r: Option<String>)
    ensures
        opt_text(r) == Some(url@),
{
    Some(url.clone())
}

/// Converts one page, and adds its headings to the outline.
fn layout_page(
    lp: &LayoutedPage,
    runs: &Vec<RunMetrics>,
    page_index: usize,
    emit_word_boxes: bool,
    extract_annotations: bool,
    outline: &mut Vec<OutlineTarget>,
) -> (page: Page)
    requires
        page_index < i32::MAX,
        runs@.len() == lp.commands@.len(),
        emit_word_boxes ==> forall|i: int|
            0 <= i < runs@.len() ==> metrics_fit(#[trigger] lp.commands@[i], runs@[i]),
    ensures
        is_native_page(
            page,
            *lp,
            runs@,
            page_index as int,
            emit_word_boxes,
            extract_annotations,
        ),
        outline_views(final(outline)@) == outline_after(
            outline_views(old(outline)@),
            *lp,
            runs@,
            page_index as int,
            lp.commands@.len() as int,
        ).entries,
{
    let ghost cmds = lp.commands@;
    let ghost before = outline_views(outline@);
    let mut items: Vec<TextItem> = Vec::new();
    let mut links: Vec<(Rect, String)> = Vec::new();
    let mut spans: Vec<LinkSpan> = Vec::new();
    let mut open: Vec<usize> = Vec::new();
    let mut i: usize = 0;
    assert(link_views(links@) =~= links_of(cmds, 0));
    assert(span_views(spans@) =~= spans_of(cmds, 0));
    while i < lp.commands.len()
        invariant
            i <= cmds.len(),
            cmds == lp.commands@,
            page_index < i32::MAX,
            runs@.len() == cmds.len(),
            emit_word_boxes ==> forall|j: int|
                0 <= j < runs@.len() ==> metrics_fit(#[trigger] lp.commands@[j], runs@[j]),
            items@.len() == item_commands(cmds, i as int).len(),
            forall|k: int|
                0 <= k < items@.len() ==> is_text_item(
                    #[trigger] items@[k],
                    cmds[item_commands(cmds, i as int)[k]],
                    runs@[item_commands(cmds, i as int)[k]],
                    emit_word_boxes,
                ) && is_plain_item(items@[k]) && items@[k].link is None,
            link_views(links@) == links_of(cmds, i as int),
            extract_annotations ==> span_views(spans@) == spans_of(cmds, i as int),
            outline_views(outline@) == outline_after(
                before,
                *lp,
                runs@,
                page_index as int,
                i as int,
            ).entries,
            open@.len() == outline_after(before, *lp, runs@, page_index as int, i as int).open.len(),
            forall|k: int|
                0 <= k < open@.len() ==> (#[trigger] open@[k]) == outline_after(
                    before,
                    *lp,
                    runs@,
                    page_index as int,
                    i as int,
                ).open[k] && open@[k] < outline@.len(),
        decreases cmds.len() - i,
    {
        let ghost state = outline_after(before, *lp, runs@, page_index as int, i as int);
        let ghost next = outline_after(before, *lp, runs@, page_index as int, i + 1);
        let ghost old_outline = outline@;
        let ghost old_items = items@;
        let c = &lp.commands[i];
        if let Some(item) = item_of(c, &runs[i], emit_word_boxes) {
            items.push(item);
        }
        match c {
            DrawCommand::Text { position, .. } => {
                let top = position.y.minus(runs[i].ascent);
                place_headings(outline, &open, lp.page_size.height.minus(top));
                proof {
                    assert forall|q: int| 0 <= q < outline@.len() implies outline_views(
                        outline@,
                    )[q] == next.entries[q] by {
                        assert(state.entries[q] == old_outline[q]@);
                        if state.open.contains(q) {
                            let k = choose|k: int|
                                0 <= k < state.open.len() && state.open[k] == q;
                            assert(open@[k] == q);
                        }
                        if exists|k: int| 0 <= k < open@.len() && #[trigger] open@[k] == q {
                            let k = choose|k: int| 0 <= k < open@.len() && #[trigger] open@[k] == q;
                            assert(state.open[k] == q);
                        }
                        assert(outline@[q]@ == next.entries[q]);
                    }
                    assert(outline_views(outline@) =~= next.entries);
                }
            },
            DrawCommand::LinkAnnotation { rect, url, target } => {
                if extract_annotations {
                    let ghost old_spans = spans@;
                    spans.push(
                        LinkSpan { target: *target, uri: copy_uri(url), rect: rect.flat() },
                    );
                    assert(span_views(spans@) =~= spans_of(cmds, i + 1));
                }
                links.push((rect.flat(), url.clone()));
                assert(link_views(links@) =~= links_of(cmds, i + 1));
            },
            DrawCommand::InternalLink { rect, target, .. } => {
                if extract_annotations {
                    spans.push(LinkSpan { target: *target, uri: None, rect: rect.flat() });
                    assert(span_views(spans@) =~= spans_of(cmds, i + 1));
                }
            },
            DrawCommand::Outline(OutlineMark::Begin(h)) => {
                let n: usize = outline.len();
                outline.push(
                    OutlineTarget {
                        level: h.level,
                        title: h.title.clone(),
                        page_index: page_index as i32,
                        y_pdf: None,
                    },
                );
                open.push(n);
                assert(outline_views(outline@) =~= next.entries);
            },
            DrawCommand::Outline(OutlineMark::End) => {
                let _ = open.pop();
            },
            _ => {},
        }
        i += 1;
    }
    let ghost made = item_commands(cmds, cmds.len() as int);
    let ghost unlinked = items@;
    assign_links(&mut items, &links);
    proof {
        assert forall|k: int| 0 <= k < made.len() implies is_made_item(
            #[trigger] items@[k],
            cmds,
            runs@,
            made[k],
            emit_word_boxes,
        ) by {
            assert(linked(unlinked[k], items@[k], link_views(links@)));
            assert(is_text_item(unlinked[k], cmds[made[k]], runs@[made[k]], emit_word_boxes));
        }
    }
    let annotations = if extract_annotations {
        Some(merge_link_annotations(&spans))
    } else {
        None
    };
    let content_bounds = union_bounds(&items);
    Page {
        page_number: page_index + 1,
        page_width: lp.page_size.width,
        page_height: lp.page_size.height,
        content_bounds,
        text_items: items,
        annotations,
        extras: PageExtras::default(),
    }
}

/// Whether a block starts on one of the first `n` pages.
pub open spec fn starts_before(layouted: Seq<LayoutedPage>, n: int, b: usize) -> bool {
    exists|p: int| 0 <= p < n && (#[trigger] layouted[p]).block_starts@.contains(b)
}

/// Whether `m` maps each block that starts on one of the first `n` pages to
/// the first page that it starts on.
pub open spec fn is_start_map(
    layouted: Seq<LayoutedPage>,
    n: int,
    m: Map<usize, usize>,
) -> bool {
    &&& forall|b: usize| #[trigger] m.contains_key(b) <==> starts_before(layouted, n, b)
    &&& forall|b: usize| #[trigger]
        m.contains_key(b) ==> m[b] < n && layouted[m[b] as int].block_starts@.contains(b)
            && !starts_before(layouted, m[b] as int, b)
}

/// Notes the blocks that start on a page, where no earlier page has them.
fn note_starts(starts: &Vec<usize>, page_index: usize, block_pages: &mut HashMap<usize, usize>)
    requires
        forall|b: usize| #[trigger]
            old(block_pages)@.contains_key(b) ==> old(block_pages)@[b] < page_index,
    ensures
        forall|b: usize| #[trigger]
            final(block_pages)@.contains_key(b) <==> old(block_pages)@.contains_key(b)
                || starts@.contains(b),
        forall|b: usize| #[trigger]
            final(block_pages)@.contains_key(b) ==> final(block_pages)@[b] == (
            if old(block_pages)@.contains_key(b) {
                old(block_pages)@[b]
            } else {
                page_index
            }),
{
    let ghost start = block_pages@;
    let mut k: usize = 0;
    while k < starts.len()
        invariant
            k <= starts@.len(),
            forall|b: usize| #[trigger]
                block_pages@.contains_key(b) <==> start.contains_key(b) || starts@.take(
                    k as int,
                ).contains(b),
            forall|b: usize| #[trigger]
                block_pages@.contains_key(b) ==> block_pages@[b] == (if start.contains_key(b) {
                    start[b]
                } else {
                    page_index
                }),
        decreases starts@.len() - k,
    {
        let b: usize = starts[k];
        let ghost before = block_pages@;
        if !block_pages.contains_key(&b) {
            block_pages.insert(b, page_index);
        }
        proof {
            let t0 = starts@.take(k as int);
            let t1 = starts@.take(k + 1);
            assert(t1 =~= t0.push(b));
            assert forall|q: usize| t1.contains(q) <==> t0.contains(q) || q == b by {
                if t0.contains(q) {
                    let j = choose|j: int| 0 <= j < t0.len() && t0[j] == q;
                    assert(t1[j] == q);
                }
                assert(t1[k as int] == b);
            }
        }
        k += 1;
    }
    assert(starts@.take(starts@.len() as int) =~= starts@);
}

/// Whether `r` is what some laid-out pages make: a page for each, the outline of
/// all their headings, and the pages that blocks start on.
pub open spec fn is_layout(
    r: NativeLayout,
    layouted: Seq<LayoutedPage>,
    runs: Seq<Vec<RunMetrics>>,
    emit_word_boxes: bool,
    extract_annotations: bool,
) -> bool {
    &&& r.pages@.len() == layouted.len()
    &&& forall|p: int|
        0 <= p < layouted.len() ==> is_native_page(
            #[trigger] r.pages@[p],
            layouted[p],
            runs[p]@,
            p,
            emit_word_boxes,
            extract_annotations,
        )
    &&& outline_views(r.outline@) == outline_of(layouted, runs, layouted.len() as int)
    &&& is_start_map(layouted, layouted.len() as int, r.block_pages@)
}

/// Converts laid-out pages into pages of text items, an outline, and a map
/// from body blocks to pages. `runs` holds one entry per command, which says
/// for a text command what its text measures.
pub fn layout_to_pages(
    layouted: &Vec<LayoutedPage>,
    runs: &Vec<Vec<RunMetrics>>,
    emit_word_boxes: bool,
    extract_annotations: bool,
) -> (r: NativeLayout)
    requires
        layouted@.len() < i32::MAX,
        runs@.len() == layouted@.len(),
        forall|p: int|
            0 <= p < runs@.len() ==> (#[trigger] runs@[p])@.len() == layouted@[p].commands@.len(),
        emit_word_boxes ==> forall|p: int, i: int|
            0 <= p < runs@.len() && 0 <= i < runs@[p]@.len() ==> metrics_fit(
                #[trigger] layouted@[p].commands@[i],
                runs@[p]@[i],
            ),
    ensures
        is_layout(r, layouted@, runs@, emit_word_boxes, extract_annotations),
{
    let mut pages: Vec<Page> = Vec::new();
    let mut outline: Vec<OutlineTarget> = Vec::new();
    let mut block_pages: HashMap<usize, usize> = HashMap::new();
    assert(outline_views(outline@) =~= outline_of(layouted@, runs@, 0));
    let mut p: usize = 0;
    while p < layouted.len()
        invariant
            p <= layouted@.len(),
            layouted@.len() < i32::MAX,
            runs@.len() == layouted@.len(),
            forall|q: int|
                0 <= q < runs@.len() ==> (#[trigger] runs@[q])@.len()
                    == layouted@[q].commands@.len(),
            emit_word_boxes ==> forall|q: int, i: int|
                0 <= q < runs@.len() && 0 <= i < runs@[q]@.len() ==> metrics_fit(
                    #[trigger] layouted@[q].commands@[i],
                    runs@[q]@[i],
                ),
            pages@.len() == p,
            forall|q: int|
                0 <= q < p ==> is_native_page(
                    #[trigger] pages@[q],
                    layouted@[q],
                    runs@[q]@,
                    q,
                    emit_word_boxes,
                    extract_annotations,
                ),
            outline_views(outline@) == outline_of(layouted@, runs@, p as int),
            is_start_map(layouted@, p as int, block_pages@),
        decreases layouted@.len() - p,
    {
        let lp = &layouted[p];
        let ghost before = block_pages@;
        let page = layout_page(
            lp,
            &runs[p],
            p,
            emit_word_boxes,
            extract_annotations,
            &mut outline,
        );
        pages.push(page);
        note_starts(&lp.block_starts, p, &mut block_pages);
        proof {
            assert forall|b: usize| #[trigger]
                block_pages@.contains_key(b) <==> starts_before(layouted@, p + 1, b) by {
                if starts_before(layouted@, p + 1, b) && !before.contains_key(b) {
                    let q = choose|q: int|
                        0 <= q < p + 1 && (#[trigger] layouted@[q]).block_starts@.contains(b);
                    if q < p {
                        assert(starts_before(layouted@, p as int, b));
                    }
                }
                if before.contains_key(b) {
                    assert(starts_before(layouted@, p as int, b));
                    let q = choose|q: int|
                        0 <= q < p && (#[trigger] layouted@[q]).block_starts@.contains(b);
                    assert(0 <= q < p + 1 && layouted@[q].block_starts@.contains(b));
                }
                if lp.block_starts@.contains(b) {
                    assert(layouted@[p as int].block_starts@.contains(b));
                }
            }
        }
        p += 1;
    }
    NativeLayout { pages, outline, block_pages }
}

// ── What the options change ────────────────────────────────────────────

/// Whether two items say the same but for their words.
pub open spec fn items_agree(a: TextItem, b: TextItem) -> bool {
    &&& a.text@ == b.text@
    &&& a.area() == b.area()
    &&& a.rotation == b.rotation
    &&& opt_text(a.font_name) == opt_text(b.font_name)
    &&& a.font_size == b.font_size
    &&& a.font_height == b.font_height
    &&& a.font_ascent == b.font_ascent
    &&& a.font_descent == b.font_descent
    &&& a.font_weight == b.font_weight
    &&& a.text_width == b.text_width
    &&& a.font_is_buggy == b.font_is_buggy
    &&& a.mcid == b.mcid
    &&& opt_text(a.fill_color) == opt_text(b.fill_color)
    &&& opt_text(a.stroke_color) == opt_text(b.stroke_color)
    &&& a.char_codes@ == b.char_codes@
    &&& a.trailing_space_generated == b.trailing_space_generated
    &&& a.strike == b.strike
    &&& opt_text(a.link) == opt_text(b.link)
}

/// Whether two lists of words say the same.
pub open spec fn words_agree(a: Seq<WordBox>, b: Seq<WordBox>) -> bool {
    &&& a.len() == b.len()
    &&& forall|k: int|
        0 <= k < a.len() ==> (#[trigger] a[k]).text@ == (#[trigger] b[k]).text@ && a[k].x == b[k].x
            && a[k].y == b[k].y && a[k].width == b[k].width && a[k].height == b[k].height
}

/// Whether two lists of link annotations say the same.
pub open spec fn links_agree(a: Seq<DocumentAnnotation>, b: Seq<DocumentAnnotation>) -> bool {
    &&& a.len() == b.len()
    &&& forall|k: int|
        0 <= k < a.len() ==> {
            &&& (#[trigger] a[k]).subtype@ == (#[trigger] b[k]).subtype@
            &&& opt_text(a[k].contents) == opt_text(b[k].contents)
            &&& opt_text(a[k].created) == opt_text(b[k].created)
            &&& opt_text(a[k].modified) == opt_text(b[k].modified)
            &&& opt_text(a[k].title) == opt_text(b[k].title)
            &&& a[k].rect == b[k].rect
            &&& a[k].quadpoint_rects@ == b[k].quadpoint_rects@
            &&& opt_text(a[k].uri) == opt_text(b[k].uri)
        }
}

/// Whether two pages say the same but for what the options ask for: word boxes
/// agree where `words` says so, annotations where both pages have them.
pub open spec fn native_pages_agree(a: Page, b: Page, words: bool) -> bool {
    &&& a.page_number == b.page_number
    &&& a.page_width == b.page_width
    &&& a.page_height == b.page_height
    &&& a.content_bounds == b.content_bounds
    &&& a.text_items@.len() == b.text_items@.len()
    &&& forall|k: int|
        0 <= k < a.text_items@.len() ==> items_agree(
            #[trigger] a.text_items@[k],
            #[trigger] b.text_items@[k],
        ) && (words ==> words_agree(a.text_items@[k].words@, b.text_items@[k].words@))
    &&& match (a.annotations, b.annotations) {
        (Some(x), Some(y)) => links_agree(x@, y@),
        _ => true,
    }
}

proof fn lemma_made_items_agree(
    a: TextItem,
    b: TextItem,
    cmds: Seq<DrawCommand>,
    runs: Seq<RunMetrics>,
    i: int,
    words_a: bool,
    words_b: bool,
)
    requires
        is_made_item(a, cmds, runs, i, words_a),
        is_made_item(b, cmds, runs, i, words_b),
    ensures
        items_agree(a, b),
        words_a == words_b ==> words_agree(a.words@, b.words@),
{
    assert(a.char_codes@ =~= b.char_codes@);
    if words_a && words_b {
        if let DrawCommand::Text { text, .. } = cmds[i] {
            let m = runs[i];
            let r = choose|r: Seq<(usize, usize)>|
                {
                    &&& text::are_words(text@, r)
                    &&& a.words@.len() == r.len()
                    &&& forall|k: int|
                        0 <= k < r.len() ==> is_word_box(
                            #[trigger] a.words@[k],
                            text@,
                            r[k],
                            m.prefix@,
                            a.x,
                            a.y,
                            a.height,
                        )
                };
            let q = choose|q: Seq<(usize, usize)>|
                {
                    &&& text::are_words(text@, q)
                    &&& b.words@.len() == q.len()
                    &&& forall|k: int|
                        0 <= k < q.len() ==> is_word_box(
                            #[trigger] b.words@[k],
                            text@,
                            q[k],
                            m.prefix@,
                            b.x,
                            b.y,
                            b.height,
                        )
                };
            text::words_are_unique(text@, r, q);
        }
    }
}

/// The outer edges of some items depend on their boxes alone.
proof fn lemma_edges_alike(a: Seq<TextItem>, b: Seq<TextItem>, n: int)
    requires
        1 <= n <= a.len(),
        a.len() == b.len(),
        forall|k: int| 0 <= k < a.len() ==> items_agree(#[trigger] a[k], #[trigger] b[k]),
    ensures
        outer_edges(a, n) == outer_edges(b, n),
    decreases n,
{
    assert(items_agree(a[n - 1], b[n - 1]));
    if n > 1 {
        lemma_edges_alike(a, b, n - 1);
    }
}

proof fn lemma_link_annotations_agree(
    a: Seq<DocumentAnnotation>,
    b: Seq<DocumentAnnotation>,
    spans: Seq<SpanView>,
    i: int,
)
    requires
        are_link_annotations(a, spans, i),
        are_link_annotations(b, spans, i),
    ensures
        links_agree(a, b),
    decreases a.len(),
{
    if 0 <= i < spans.len() {
        let j = run_end(spans, spans[i].target, i + 1);
        lemma_link_annotations_agree(a.skip(1), b.skip(1), spans, j);
        assert forall|k: int| 0 < k < a.len() implies #[trigger] a[k] == a.skip(1)[k - 1] && b[k]
            == b.skip(1)[k - 1] by {}
    }
}

/// The options of a conversion change only what they are for. Whatever they are,
/// the pages have the same size, bounds and items, the items with the same links;
/// the outline and the pages of the blocks are the same; word boxes are the same
/// wherever they were asked for or not asked for both times; and each page has
/// annotations, always the same, exactly where they were asked for.
pub proof fn options_change_only_their_own(
    layouted: Seq<LayoutedPage>,
    runs: Seq<Vec<RunMetrics>>,
    a: NativeLayout,
    words_a: bool,
    annotations_a: bool,
    b: NativeLayout,
    words_b: bool,
    annotations_b: bool,
)
    requires
        is_layout(a, layouted, runs, words_a, annotations_a),
        is_layout(b, layouted, runs, words_b, annotations_b),
    ensures
        a.pages@.len() == b.pages@.len(),
        forall|p: int|
            0 <= p < a.pages@.len() ==> native_pages_agree(
                #[trigger] a.pages@[p],
                #[trigger] b.pages@[p],
                words_a == words_b,
            ),
        forall|p: int|
            0 <= p < a.pages@.len() ==> ((#[trigger] a.pages@[p]).annotations is Some
                <==> annotations_a),
        forall|p: int|
            0 <= p < b.pages@.len() ==> ((#[trigger] b.pages@[p]).annotations is Some
                <==> annotations_b),
        outline_views(a.outline@) == outline_views(b.outline@),
        a.block_pages@ == b.block_pages@,
{
    assert forall|p: int| 0 <= p < a.pages@.len() implies native_pages_agree(
        #[trigger] a.pages@[p],
        #[trigger] b.pages@[p],
        words_a == words_b,
    ) by {
        let x = a.pages@[p];
        let y = b.pages@[p];
        let cmds = layouted[p].commands@;
        let made = item_commands(cmds, cmds.len() as int);
        assert(is_native_page(x, layouted[p], runs[p]@, p, words_a, annotations_a));
        assert(is_native_page(y, layouted[p], runs[p]@, p, words_b, annotations_b));
        assert forall|k: int| 0 <= k < x.text_items@.len() implies items_agree(
            #[trigger] x.text_items@[k],
            #[trigger] y.text_items@[k],
        ) && (words_a == words_b ==> words_agree(
            x.text_items@[k].words@,
            y.text_items@[k].words@,
        )) by {
            lemma_made_items_agree(
                x.text_items@[k],
                y.text_items@[k],
                cmds,
                runs[p]@,
                made[k],
                words_a,
                words_b,
            );
        }
        if x.text_items@.len() > 0 {
            lemma_edges_alike(x.text_items@, y.text_items@, x.text_items@.len() as int);
        }
        if x.annotations is Some && y.annotations is Some {
            lemma_link_annotations_agree(
                x.annotations->0@,
                y.annotations->0@,
                spans_of(cmds, cmds.len() as int),
                0,
            );
        }
    }
    assert forall|p: int| 0 <= p < a.pages@.len() implies ((#[trigger] a.pages@[p]).annotations
        is Some <==> annotations_a) by {
        assert(is_native_page(a.pages@[p], layouted[p], runs[p]@, p, words_a, annotations_a));
    }
    assert forall|p: int| 0 <= p < b.pages@.len() implies ((#[trigger] b.pages@[p]).annotations
        is Some <==> annotations_b) by {
        assert(is_native_page(b.pages@[p], layouted[p], runs[p]@, p, words_b, annotations_b));
    }
    lemma_start_maps_agree(layouted, layouted.len() as int, a.block_pages@, b.block_pages@);
}

proof fn lemma_start_maps_agree(
    layouted: Seq<LayoutedPage>,
    n: int,
    a: Map<usize, usize>,
    b: Map<usize, usize>,
)
    requires
        is_start_map(layouted, n, a),
        is_start_map(layouted, n, b),
    ensures
        a == b,
{
    assert(a.dom() =~= b.dom()) by {
        assert forall|k: usize| a.dom().contains(k) <==> b.dom().contains(k) by {
            assert(a.contains_key(k) <==> b.contains_key(k));
        }
    }
    assert forall|k: usize| a.contains_key(k) implies a[k] == b[k] by {
        assert(b.contains_key(k));
        assert(layouted[a[k] as int].block_starts@.contains(k));
        assert(layouted[b[k] as int].block_starts@.contains(k));
        if a[k] < b[k] {
            assert(starts_before(layouted, b[k] as int, k));
        }
        if b[k] < a[k] {
            assert(starts_before(layouted, a[k] as int, k));
        }
    }
    assert(a =~= b);
}

/// Word boxes are there only where they were asked for. Then a text has one box
/// for each of its words, in their order, all as high as the text and at its
/// height.
pub proof fn words_stand_in_their_text(
    layouted: Seq<LayoutedPage>,
    runs: Seq<Vec<RunMetrics>>,
    r: NativeLayout,
    emit_word_boxes: bool,
    extract_annotations: bool,
    p: int,
    k: int,
)
    requires
        is_layout(r, layouted, runs, emit_word_boxes, extract_annotations),
        0 <= p < r.pages@.len(),
        0 <= k < r.pages@[p].text_items@.len(),
    ensures
        ({
            let item = r.pages@[p].text_items@[k];
            let cmds = layouted[p].commands@;
            let made = cmds[item_commands(cmds, cmds.len() as int)[k]];
            &&& !emit_word_boxes ==> item.words@.len() == 0
            &&& emit_word_boxes && made is Text ==> exists|ranges: Seq<(usize, usize)>|
                #[trigger] text::are_words(item.text@, ranges) && item.words@.len() == ranges.len()
                    && forall|w: int|
                    0 <= w < ranges.len() ==> (#[trigger] item.words@[w]).text@
                        == item.text@.subrange(ranges[w].0 as int, ranges[w].1 as int)
            &&& forall|w: int|
                0 <= w < item.words@.len() ==> (#[trigger] item.words@[w]).y == item.y
                    && item.words@[w].height == item.height
        }),
{
    let item = r.pages@[p].text_items@[k];
    let cmds = layouted[p].commands@;
    let i = item_commands(cmds, cmds.len() as int)[k];
    let m = runs[p]@[i];
    assert(is_native_page(
        r.pages@[p],
        layouted[p],
        runs[p]@,
        p,
        emit_word_boxes,
        extract_annotations,
    ));
    assert(is_made_item(item, cmds, runs[p]@, i, emit_word_boxes));
    if emit_word_boxes && cmds[i] is Text {
        let s = cmds[i]->Text_text@;
        let ranges = choose|ranges: Seq<(usize, usize)>|
            {
                &&& text::are_words(s, ranges)
                &&& item.words@.len() == ranges.len()
                &&& forall|k: int|
                    0 <= k < ranges.len() ==> is_word_box(
                        #[trigger] item.words@[k],
                        s,
                        ranges[k],
                        m.prefix@,
                        item.x,
                        item.y,
                        item.height,
                    )
            };
        assert(text::are_words(item.text@, ranges));
        assert forall|w: int| 0 <= w < item.words@.len() implies (#[trigger] item.words@[w]).y
            == item.y && item.words@[w].height == item.height by {
            assert(is_word_box(
                item.words@[w],
                s,
                ranges[w],
                m.prefix@,
                item.x,
                item.y,
                item.height,
            ));
        }
    }
}

proof fn lemma_no_outer_links(cmds: Seq<DrawCommand>, n: int)
    requires
        0 <= n <= cmds.len(),
        forall|i: int| 0 <= i < cmds.len() ==> !((#[trigger] cmds[i]) is LinkAnnotation),
    ensures
        links_of(cmds, n).len() == 0,
        forall|k: int|
            0 <= k < spans_of(cmds, n).len() ==> (#[trigger] spans_of(cmds, n)[k]).uri is None,
    decreases n,
{
    if n > 0 {
        lemma_no_outer_links(cmds, n - 1);
        let before = spans_of(cmds, n - 1);
        assert forall|k: int| 0 <= k < spans_of(cmds, n).len() implies (
        #[trigger] spans_of(cmds, n)[k]).uri is None by {
            if k < before.len() {
                assert(before[k].uri is None);
            }
        }
    }
}

proof fn lemma_no_uri(out: Seq<DocumentAnnotation>, spans: Seq<SpanView>, i: int)
    requires
        are_link_annotations(out, spans, i),
        forall|k: int| 0 <= k < spans.len() ==> (#[trigger] spans[k]).uri is None,
    ensures
        forall|k: int| 0 <= k < out.len() ==> (#[trigger] out[k]).uri is None,
    decreases out.len(),
{
    if 0 <= i < spans.len() {
        let j = run_end(spans, spans[i].target, i + 1);
        lemma_no_uri(out.skip(1), spans, j);
        assert forall|k: int| 0 <= k < out.len() implies (#[trigger] out[k]).uri is None by {
            if k > 0 {
                assert(out[k] == out.skip(1)[k - 1]);
            } else {
                assert(spans[i].uri is None);
            }
        }
    }
}

/// Links inside the document have no address: on a page that has no others, no
/// text is linked, and the annotations of the links, where they were asked for,
/// give none.
pub proof fn inner_links_have_no_address(
    layouted: Seq<LayoutedPage>,
    runs: Seq<Vec<RunMetrics>>,
    r: NativeLayout,
    emit_word_boxes: bool,
    extract_annotations: bool,
    p: int,
)
    requires
        is_layout(r, layouted, runs, emit_word_boxes, extract_annotations),
        0 <= p < r.pages@.len(),
        forall|i: int|
            0 <= i < layouted[p].commands@.len() ==> !(
            (#[trigger] layouted[p].commands@[i]) is LinkAnnotation),
    ensures
        forall|k: int|
            0 <= k < r.pages@[p].text_items@.len() ==> (
            #[trigger] r.pages@[p].text_items@[k]).link is None,
        r.pages@[p].annotations matches Some(a) ==> forall|k: int|
            0 <= k < a@.len() ==> (#[trigger] a@[k]).uri is None,
{
    let page = r.pages@[p];
    let cmds = layouted[p].commands@;
    let n = cmds.len() as int;
    assert(is_native_page(page, layouted[p], runs[p]@, p, emit_word_boxes, extract_annotations));
    lemma_no_outer_links(cmds, n);
    assert forall|k: int| 0 <= k < page.text_items@.len() implies (
    #[trigger] page.text_items@[k]).link is None by {
        assert(is_made_item(
            page.text_items@[k],
            cmds,
            runs[p]@,
            item_commands(cmds, n)[k],
            emit_word_boxes,
        ));
        assert(link_from(page.text_items@[k].area(), links_of(cmds, n), 0) is None);
    }
    if let Some(a) = page.annotations {
        lemma_no_uri(a@, spans_of(cmds, n), 0);
    }
}

}
