//! What the raw text items of a page say of its glyphs.
use crate::raw_text;
use crate::raw_text::{
    Color, FontType, Glyph, GlyphFacts, GlyphReading, RawTextItem, RectF,
};
use crate::units;
use crate::units::{Direction, Pt};
use vstd::prelude::*;

verus! {

/// Whether a number is white space in plain ASCII.
pub open spec fn ascii_space(c: int) -> bool {
    c == 9 || c == 10 || c == 11 || c == 12 || c == 13 || c == 32
}

/// Whether a glyph is a line end that was made up.
pub open spec fn made_up_line_end(g: Glyph) -> bool {
    g.generated && (g.unicode == 10 || g.unicode == 13)
}

/// Whether a glyph can stand in one item with the first glyph of it: both belong
/// to one text object, and their angles are no further apart than a hundredth of a
/// radian.
pub open spec fn stand_together(first: Glyph, g: Glyph) -> bool {
    &&& first.text_object == g.text_object
    &&& g.angle <= first.angle + 10_000
    &&& first.angle <= g.angle + 10_000
}

/// The glyphs that an item of a page is made of: from the first number up to the
/// second.
pub open spec fn made_of(
    glyphs: Seq<Glyph>,
    facts: Seq<GlyphFacts>,
    resolving: bool,
    k: int,
) -> (int, int) {
    raw_text::kept_runs(glyphs, facts, resolving, raw_text::runs_of(glyphs).len() as int)[k]
}

/// Whether items are those of a page.
pub open spec fn page_items(
    items: Seq<RawTextItem>,
    glyphs: Seq<Glyph>,
    facts: Seq<GlyphFacts>,
    resolving: bool,
) -> bool {
    raw_text::are_items(
        items,
        glyphs,
        facts,
        raw_text::kept_runs(glyphs, facts, resolving, raw_text::runs_of(glyphs).len() as int),
        resolving,
    )
}

proof fn lemma_kept_are_runs(
    glyphs: Seq<Glyph>,
    facts: Seq<GlyphFacts>,
    resolving: bool,
    n: int,
)
    requires
        0 <= n <= raw_text::runs_of(glyphs).len(),
    ensures
        forall|k: int|
            0 <= k < raw_text::kept_runs(glyphs, facts, resolving, n).len() ==> exists|j: int|
                0 <= j < n && raw_text::runs_of(glyphs)[j] == #[trigger] raw_text::kept_runs(
                    glyphs,
                    facts,
                    resolving,
                    n,
                )[k],
    decreases n,
{
    if n > 0 {
        lemma_kept_are_runs(glyphs, facts, resolving, n - 1);
        let before = raw_text::kept_runs(glyphs, facts, resolving, n - 1);
        let now = raw_text::kept_runs(glyphs, facts, resolving, n);
        assert forall|k: int| 0 <= k < now.len() implies exists|j: int|
            0 <= j < n && raw_text::runs_of(glyphs)[j] == #[trigger] now[k] by {
            if k < before.len() {
                assert(now[k] == before[k]);
                let j = choose|j: int|
                    0 <= j < n - 1 && raw_text::runs_of(glyphs)[j] == before[k];
                assert(raw_text::runs_of(glyphs)[j] == now[k]);
            } else {
                assert(raw_text::runs_of(glyphs)[n - 1] == now[k]);
            }
        }
    }
}

proof fn lemma_made_of_a_run(
    items: Seq<RawTextItem>,
    glyphs: Seq<Glyph>,
    facts: Seq<GlyphFacts>,
    resolving: bool,
    k: int,
)
    requires
        page_items(items, glyphs, facts, resolving),
        0 <= k < items.len(),
    ensures
        ({
            let (a, b) = made_of(glyphs, facts, resolving, k);
            &&& raw_text::run_ok(glyphs, a, b)
            &&& raw_text::is_item(items[k], glyphs, facts, a, b, resolving)
        }),
{
    let runs = raw_text::runs_of(glyphs);
    let n = runs.len() as int;
    lemma_kept_are_runs(glyphs, facts, resolving, n);
    raw_text::runs_partition_glyphs(glyphs);
    let kept = raw_text::kept_runs(glyphs, facts, resolving, n);
    let j = choose|j: int| 0 <= j < n && runs[j] == kept[k];
    assert(raw_text::run_ok(glyphs, runs[j].0, runs[j].1));
    assert(raw_text::is_item(items[k], glyphs, facts, kept[k].0, kept[k].1, resolving));
}

/// An item is made of glyphs that follow each other and stand together: of one
/// text object, with angles within a hundredth of a radian of the first, without a
/// made-up line end, and with nothing that is made up or blank before the last.
pub proof fn items_are_made_of_glyphs_that_stand_together(
    items: Seq<RawTextItem>,
    glyphs: Seq<Glyph>,
    facts: Seq<GlyphFacts>,
    resolving: bool,
    k: int,
)
    requires
        page_items(items, glyphs, facts, resolving),
        0 <= k < items.len(),
    ensures
        ({
            let (a, b) = made_of(glyphs, facts, resolving, k);
            &&& 0 <= a < b <= glyphs.len()
            &&& forall|i: int|
                a <= i < b ==> stand_together(glyphs[a], #[trigger] glyphs[i])
                    && !made_up_line_end(glyphs[i])
            &&& forall|i: int|
                a <= i < b - 1 ==> !(#[trigger] glyphs[i]).generated && !ascii_space(
                    glyphs[i].unicode as int,
                )
        }),
{
    lemma_made_of_a_run(items, glyphs, facts, resolving, k);
}

/// An item has the angle of its first glyph, so it lies within a hundredth of a
/// radian of every glyph of it, and glyphs of one angle make an item of that angle.
pub proof fn items_lie_along_their_glyphs(
    items: Seq<RawTextItem>,
    glyphs: Seq<Glyph>,
    facts: Seq<GlyphFacts>,
    resolving: bool,
    k: int,
)
    requires
        page_items(items, glyphs, facts, resolving),
        0 <= k < items.len(),
    ensures
        ({
            let (a, b) = made_of(glyphs, facts, resolving, k);
            &&& items[k].angle == glyphs[a].angle
            &&& forall|i: int|
                a <= i < b ==> (#[trigger] glyphs[i]).angle - 10_000 <= items[k].angle
                    <= glyphs[i].angle + 10_000
            &&& forall|t: i64|
                (forall|i: int| a <= i < b ==> (#[trigger] glyphs[i]).angle == t)
                    ==> #[trigger] same_angle(items[k].angle, t)
        }),
{
    lemma_made_of_a_run(items, glyphs, facts, resolving, k);
    let (a, b) = made_of(glyphs, facts, resolving, k);
    assert(stand_together(glyphs[a], glyphs[a]));
    assert forall|t: i64|
        (forall|i: int| a <= i < b ==> (#[trigger] glyphs[i]).angle
            == t) implies #[trigger] same_angle(items[k].angle, t) by {
        assert(glyphs[a].angle == t);
    }
}

/// Whether two angles are the same.
pub open spec fn same_angle(a: i64, b: i64) -> bool {
    a == b
}

/// An item ends only for a reason: where the next item goes on with the very next
/// glyph, the last glyph is made up or blank, or the next one cannot stand with the
/// first.
pub proof fn runs_end_only_for_a_reason(glyphs: Seq<Glyph>, k: int)
    requires
        0 <= k,
        k + 1 < raw_text::runs_of(glyphs).len(),
    ensures
        ({
            let (a, b) = raw_text::runs_of(glyphs)[k];
            let next = raw_text::runs_of(glyphs)[k + 1].0;
            next == b ==> glyphs[b - 1].generated || ascii_space(glyphs[b - 1].unicode as int)
                || !stand_together(glyphs[a], glyphs[b])
        }),
{
    lemma_runs_have_reasons(glyphs, glyphs.len() as int);
    raw_text::runs_partition_glyphs(glyphs);
    let n = glyphs.len() as int;
    let r = raw_text::runs_upto(glyphs, n);
    let all = raw_text::runs_of(glyphs);
    if r.open < n {
        assert(all == r.done.push((r.open, n)));
        if k + 1 < r.done.len() {
            assert(all[k] == r.done[k] && all[k + 1] == r.done[k + 1]);
            assert(has_reason(glyphs, r.done[k]));
        } else {
            assert(all[k] == r.done[k]);
            assert(has_reason(glyphs, r.done[k]));
        }
    } else {
        assert(all == r.done);
        assert(has_reason(glyphs, r.done[k]));
    }
    assert(has_reason(glyphs, all[k]));
    assert(raw_text::run_ok(glyphs, all[k + 1].0, all[k + 1].1));
}

spec fn has_reason(glyphs: Seq<Glyph>, run: (int, int)) -> bool {
    let (a, b) = run;
    ||| glyphs[b - 1].generated
    ||| ascii_space(glyphs[b - 1].unicode as int)
    ||| (b < glyphs.len() && (made_up_line_end(glyphs[b]) || !stand_together(
        glyphs[a],
        glyphs[b],
    )))
}

proof fn lemma_runs_have_reasons(glyphs: Seq<Glyph>, n: int)
    requires
        0 <= n <= glyphs.len(),
    ensures
        0 <= raw_text::runs_upto(glyphs, n).open <= n,
        forall|k: int|
            0 <= k < raw_text::runs_upto(glyphs, n).done.len() ==> has_reason(
                glyphs,
                #[trigger] raw_text::runs_upto(glyphs, n).done[k],
            ),
    decreases n,
{
    if n > 0 {
        lemma_runs_have_reasons(glyphs, n - 1);
        let i = n - 1;
        let before = raw_text::runs_upto(glyphs, i);
        let now = raw_text::runs_upto(glyphs, n);
        let mid = if before.open < i && raw_text::breaks(glyphs[before.open], glyphs[i]) {
            raw_text::closed_at(before, i)
        } else {
            before
        };
        assert forall|k: int| 0 <= k < mid.done.len() implies has_reason(
            glyphs,
            #[trigger] mid.done[k],
        ) by {
            if k < before.done.len() {
                assert(mid.done[k] == before.done[k]);
            }
        }
        assert forall|k: int| 0 <= k < now.done.len() implies has_reason(
            glyphs,
            #[trigger] now.done[k],
        ) by {
            if k < mid.done.len() {
                assert(now.done[k] == mid.done[k]);
            }
        }
    }
}

proof fn lemma_loose(glyphs: Seq<Glyph>, a: int, n: int)
    requires
        0 <= a < n <= glyphs.len(),
    ensures
        ({
            let u = raw_text::loose_upto(glyphs, a, n);
            &&& forall|i: int|
                a <= i < n ==> u.left.emu <= (#[trigger] glyphs[i]).loose.left.emu && u.top.emu
                    <= glyphs[i].loose.top.emu && u.right.emu >= glyphs[i].loose.right.emu
                    && u.bottom.emu >= glyphs[i].loose.bottom.emu
            &&& exists|i: int| a <= i < n && u.left == (#[trigger] glyphs[i]).loose.left
            &&& exists|i: int| a <= i < n && u.top == (#[trigger] glyphs[i]).loose.top
            &&& exists|i: int| a <= i < n && u.right == (#[trigger] glyphs[i]).loose.right
            &&& exists|i: int| a <= i < n && u.bottom == (#[trigger] glyphs[i]).loose.bottom
        }),
    decreases n - a,
{
    if n > a + 1 {
        lemma_loose(glyphs, a, n - 1);
        let g = glyphs[n - 1];
        assert(g == glyphs[n - 1]);
    } else {
        assert(glyphs[a] == glyphs[n - 1]);
    }
}

/// The box of an item is the smallest one that holds the loose boxes of its
/// glyphs: it starts at the leftmost and topmost of their edges and reaches as far
/// as the rightmost and lowest.
pub proof fn items_enclose_their_glyphs(
    items: Seq<RawTextItem>,
    glyphs: Seq<Glyph>,
    facts: Seq<GlyphFacts>,
    resolving: bool,
    k: int,
)
    requires
        page_items(items, glyphs, facts, resolving),
        0 <= k < items.len(),
    ensures
        ({
            let (a, b) = made_of(glyphs, facts, resolving, k);
            let t = items[k];
            &&& forall|i: int|
                a <= i < b ==> t.x.emu <= (#[trigger] glyphs[i]).loose.left.emu && t.y.emu
                    <= glyphs[i].loose.top.emu
            &&& exists|i: int| a <= i < b && t.x == (#[trigger] glyphs[i]).loose.left
            &&& exists|i: int| a <= i < b && t.y == (#[trigger] glyphs[i]).loose.top
            &&& exists|i: int|
                a <= i < b && t.width.emu == units::sat(
                    (#[trigger] glyphs[i]).loose.right.emu - t.x.emu,
                ) && forall|j: int|
                    a <= j < b ==> (#[trigger] glyphs[j]).loose.right.emu
                        <= glyphs[i].loose.right.emu
            &&& exists|i: int|
                a <= i < b && t.height.emu == units::sat(
                    (#[trigger] glyphs[i]).loose.bottom.emu - t.y.emu,
                ) && forall|j: int|
                    a <= j < b ==> (#[trigger] glyphs[j]).loose.bottom.emu
                        <= glyphs[i].loose.bottom.emu
        }),
{
    lemma_made_of_a_run(items, glyphs, facts, resolving, k);
    let (a, b) = made_of(glyphs, facts, resolving, k);
    lemma_loose(glyphs, a, b);
    let u = raw_text::loose_upto(glyphs, a, b);
    let r = choose|i: int| a <= i < b && u.right == (#[trigger] glyphs[i]).loose.right;
    let l = choose|i: int| a <= i < b && u.bottom == (#[trigger] glyphs[i]).loose.bottom;
    assert(items[k].width.emu == units::sat(glyphs[r].loose.right.emu - items[k].x.emu));
    assert(items[k].height.emu == units::sat(glyphs[l].loose.bottom.emu - items[k].y.emu));
}

proof fn lemma_no_zero(codes: Seq<u32>, n: int)
    requires
        0 <= n <= codes.len(),
        forall|i: int| 0 <= i < codes.len() ==> #[trigger] codes[i] != 0,
    ensures
        raw_text::text_before_zero(codes, n).len() == n,
        forall|i: int|
            0 <= i < n ==> #[trigger] raw_text::text_before_zero(codes, n)[i] == codes[i] as char,
    decreases n,
{
    if n > 0 {
        lemma_no_zero(codes, n - 1);
    }
}

/// Without recovery an item says what its glyphs say, character by character, and
/// carries their codes one by one.
pub proof fn items_say_what_their_glyphs_say(
    items: Seq<RawTextItem>,
    glyphs: Seq<Glyph>,
    facts: Seq<GlyphFacts>,
    k: int,
)
    requires
        page_items(items, glyphs, facts, false),
        0 <= k < items.len(),
    ensures
        ({
            let (a, b) = made_of(glyphs, facts, false, k);
            &&& items[k].char_codes@.len() == b - a
            &&& forall|i: int|
                a <= i < b ==> #[trigger] items[k].char_codes@[i - a] == glyphs[i].char_code
            &&& (forall|i: int| a <= i < b ==> (#[trigger] glyphs[i]).unicode != 0) ==> {
                &&& items[k].text@.len() == b - a
                &&& forall|i: int|
                    a <= i < b ==> #[trigger] items[k].text@[i - a] == glyphs[i].unicode as char
            }
        }),
{
    lemma_made_of_a_run(items, glyphs, facts, false, k);
    let (a, b) = made_of(glyphs, facts, false, k);
    let codes = raw_text::final_codes(glyphs, facts, a, b, false);
    if forall|i: int| a <= i < b ==> (#[trigger] glyphs[i]).unicode != 0 {
        assert forall|i: int| 0 <= i < codes.len() implies #[trigger] codes[i] != 0 by {
            assert(glyphs[a + i].unicode != 0);
        }
        lemma_no_zero(codes, codes.len() as int);
        assert forall|i: int| a <= i < b implies #[trigger] items[k].text@[i - a]
            == glyphs[i].unicode as char by {
            assert(codes[i - a] == glyphs[i].unicode);
        }
    }
}

proof fn lemma_all_runs_kept(glyphs: Seq<Glyph>, facts: Seq<GlyphFacts>, n: int)
    requires
        0 <= n <= raw_text::runs_of(glyphs).len(),
        forall|i: int|
            0 <= i < glyphs.len() ==> (#[trigger] glyphs[i]).unicode < 0xd800 || 0xdfff
                < glyphs[i].unicode <= 0x10ffff,
    ensures
        raw_text::kept_runs(glyphs, facts, false, n) == raw_text::runs_of(glyphs).take(n),
    decreases n,
{
    let runs = raw_text::runs_of(glyphs);
    if n > 0 {
        lemma_all_runs_kept(glyphs, facts, n - 1);
        raw_text::runs_partition_glyphs(glyphs);
        let (a, b) = runs[n - 1];
        assert(raw_text::run_ok(glyphs, a, b));
        let codes = raw_text::final_codes(glyphs, facts, a, b, false);
        assert forall|i: int| 0 <= i < codes.len() implies raw_text::is_scalar(
            #[trigger] codes[i],
        ) by {
            assert(codes[i] == glyphs[a + i].unicode);
        }
        assert(runs.take(n) =~= runs.take(n - 1).push(runs[n - 1]));
    } else {
        assert(runs.take(0) =~= seq![]);
    }
}

/// No glyph gets lost: where all code points are characters, every glyph but a
/// made-up line end stands in an item, and each item goes on behind the one before
/// it.
pub proof fn every_glyph_stands_in_an_item(
    items: Seq<RawTextItem>,
    glyphs: Seq<Glyph>,
    facts: Seq<GlyphFacts>,
    i: int,
)
    requires
        page_items(items, glyphs, facts, false),
        forall|j: int|
            0 <= j < glyphs.len() ==> (#[trigger] glyphs[j]).unicode < 0xd800 || 0xdfff
                < glyphs[j].unicode <= 0x10ffff,
        0 <= i < glyphs.len(),
    ensures
        made_up_line_end(glyphs[i]) || exists|k: int|
            0 <= k < items.len() && (#[trigger] made_of(glyphs, facts, false, k)).0 <= i
                < made_of(glyphs, facts, false, k).1,
        forall|k: int, l: int|
            0 <= k < l < items.len() ==> (#[trigger] made_of(glyphs, facts, false, k)).1 <= (
            #[trigger] made_of(glyphs, facts, false, l)).0,
{
    let runs = raw_text::runs_of(glyphs);
    lemma_all_runs_kept(glyphs, facts, runs.len() as int);
    assert(runs.take(runs.len() as int) =~= runs);
    raw_text::runs_partition_glyphs(glyphs);
    assert forall|k: int| 0 <= k < items.len() implies #[trigger] made_of(
        glyphs,
        facts,
        false,
        k,
    ) == runs[k] by {}
    if !made_up_line_end(glyphs[i]) {
        assert(!raw_text::line_end(glyphs[i]));
        assert(raw_text::held(runs, i));
        let k = choose|k: int| 0 <= k < runs.len() && (#[trigger] runs[k]).0 <= i < runs[k].1;
        assert(made_of(glyphs, facts, false, k) == runs[k]);
    }
}

/// What an item says of its font, its colours and its mark comes from its first
/// glyph: sizes and weight as they are, a colour as four bytes with the opacity in
/// front. The height of the font is known only of a glyph of a text object.
pub proof fn items_are_set_as_their_first_glyph(
    items: Seq<RawTextItem>,
    glyphs: Seq<Glyph>,
    facts: Seq<GlyphFacts>,
    resolving: bool,
    k: int,
)
    requires
        page_items(items, glyphs, facts, resolving),
        0 <= k < items.len(),
    ensures
        ({
            let (a, b) = made_of(glyphs, facts, resolving, k);
            let (t, f) = (items[k], facts[a]);
            &&& t.mcid == f.mcid
            &&& t.font_size == f.font_size
            &&& t.font_weight == f.font_weight
            &&& glyphs[a].text_object is Some ==> t.font_height == f.scaled_size
            &&& glyphs[a].text_object is None ==> t.font_height.emu == 0 && t.font_name@.len() == 0
                && t.font_ascent.emu == 0 && t.font_descent.emu == 0 && t.text_width.emu == 0
                && !t.font_is_buggy
            &&& glyphs[a].text_object is Some && f.font is Some ==> {
                let font = f.font->0;
                &&& font.base_name matches Some(n) ==> t.font_name@ == n@
                &&& font.base_name is None ==> t.font_name@.len() == 0
                &&& font.ascent matches Some(v) ==> t.font_ascent == v
                &&& font.ascent is None ==> t.font_ascent.emu == 0
                &&& font.descent matches Some(v) ==> t.font_descent == v
                &&& font.descent is None ==> t.font_descent.emu == 0
            }
            &&& f.fill matches Some(c) ==> t.fill_color matches Some(n) && shows(n, c)
            &&& f.fill is None ==> t.fill_color is None
            &&& f.stroke matches Some(c) ==> t.stroke_color matches Some(n) && shows(n, c)
            &&& f.stroke is None ==> t.stroke_color is None
        }),
{
    lemma_made_of_a_run(items, glyphs, facts, resolving, k);
}

/// Whether the bytes of a number are those of a colour: opacity, red, green, blue.
pub open spec fn shows(n: u32, c: Color) -> bool {
    &&& n as int % 256 == c.b
    &&& (n as int / 256) % 256 == c.g
    &&& (n as int / 65_536) % 256 == c.r
    &&& n as int / 16_777_216 == c.a
}

/// An item ends with a space that was made up exactly where its last glyph is one.
pub proof fn made_up_spaces_are_told(
    items: Seq<RawTextItem>,
    glyphs: Seq<Glyph>,
    facts: Seq<GlyphFacts>,
    resolving: bool,
    k: int,
)
    requires
        page_items(items, glyphs, facts, resolving),
        0 <= k < items.len(),
    ensures
        ({
            let last = glyphs[made_of(glyphs, facts, resolving, k).1 - 1];
            &&& items[k].trailing_space_generated ==> last.generated && last.unicode == 32
            &&& last.generated && last.unicode == 32 ==> items[k].trailing_space_generated
        }),
{
    lemma_made_of_a_run(items, glyphs, facts, resolving, k);
}

/// A font is not to be trusted exactly where it is embedded under a name of a
/// subset with made-up codes, or a glyph of the page's own content has a suspect
/// code point.
pub proof fn distrust_has_a_reason(
    items: Seq<RawTextItem>,
    glyphs: Seq<Glyph>,
    facts: Seq<GlyphFacts>,
    resolving: bool,
    k: int,
)
    requires
        page_items(items, glyphs, facts, resolving),
        0 <= k < items.len(),
    ensures
        ({
            let (a, b) = made_of(glyphs, facts, resolving, k);
            let known = glyphs[a].text_object is Some && facts[a].font is Some;
            &&& known && facts[a].font->0.embedded && facts[a].font->0.suspect_name
                ==> items[k].font_is_buggy
            &&& forall|i: int|
                known && a <= i < b && !(#[trigger] glyphs[i]).generated && facts[i].suspect
                    ==> items[k].font_is_buggy
            &&& items[k].font_is_buggy ==> known && ((facts[a].font->0.embedded
                && facts[a].font->0.suspect_name) || exists|i: int|
                a <= i < b && !(#[trigger] glyphs[i]).generated && facts[i].suspect)
        }),
{
    lemma_made_of_a_run(items, glyphs, facts, resolving, k);
}

/// Where an item of a font that is not to be trusted is recovered, its made-up
/// glyphs stay as they are; every other one becomes what its own name stands for,
/// in a font that names its glyphs, or else what its outline was recognised as, or
/// a space.
pub proof fn recovered_glyphs_are_named_or_recognised(
    glyphs: Seq<Glyph>,
    facts: Seq<GlyphFacts>,
    a: int,
    b: int,
    i: int,
)
    requires
        a <= i < b,
        raw_text::buggy(glyphs, facts, a, b),
    ensures
        ({
            let code = raw_text::final_codes(glyphs, facts, a, b, true)[i - a];
            let own_names = facts[a].font->0.font_type == FontType::Type3;
            &&& glyphs[i].generated ==> code == glyphs[i].unicode
            &&& !glyphs[i].generated ==> {
                &&& own_names && facts[i].named is Some ==> Some(code) == facts[i].named
                &&& !(own_names && facts[i].named is Some) && facts[i].recognised is Some
                    ==> Some(code) == facts[i].recognised
                &&& !(own_names && facts[i].named is Some) && facts[i].recognised is None
                    ==> code == 32
            }
        }),
{
}

/// A glyph is read as it is reported: one that was made up has no code, one that is
/// not mapped no code point, and one without a loose box has its tight one.
pub proof fn glyphs_are_read_as_reported(r: GlyphReading, blank: RectF, g: Glyph)
    requires
        g == raw_text::glyph_of(r, blank),
    ensures
        g.text_object == r.text_object,
        g.generated == r.generated,
        g.angle == r.angle,
        r.generated ==> g.char_code == 0,
        !r.generated ==> g.char_code == r.char_code,
        r.unmapped ==> g.unicode == 0,
        !r.unmapped ==> g.unicode == r.unicode,
        r.strict matches Some(b) ==> g.strict == b,
        r.strict is None ==> g.strict == blank,
        r.loose matches Some(b) ==> g.loose == b,
        r.loose is None ==> g.loose == g.strict,
{
}

/// Whether a box of a glyph counts for the tight box of an item: that of a glyph of
/// the page's own content that shows something.
pub open spec fn shows_something(g: Glyph, codepoint: u32) -> bool {
    &&& !g.generated
    &&& codepoint != 0 && !ascii_space(codepoint as int)
    &&& g.strict.left.emu < g.strict.right.emu
    &&& g.strict.top.emu < g.strict.bottom.emu
}

/// Whether a direction is that of a number of right angles.
pub open spec fn right_angled(d: Direction) -> bool {
    ||| d.sin == 0 && (d.cos == 1073741824 || d.cos == -1073741824)
    ||| d.cos == 0 && (d.sin == 1073741824 || d.sin == -1073741824)
}

spec fn holds_upto(r: raw_text::Reach, d: Direction, l: int, t: int, rt: int, b: int) -> bool {
    let one = 1073741824int;
    if d.sin == 0 && d.cos == one {
        r.min_along == one * l && r.max_along == one * rt && r.min_across == one * t
            && r.max_across == one * b
    } else if d.sin == 0 {
        r.min_along == -(one * rt) && r.max_along == -(one * l) && r.min_across == -(one * b)
            && r.max_across == -(one * t)
    } else if d.sin == one {
        r.min_along == one * t && r.max_along == one * b && r.min_across == -(one * rt)
            && r.max_across == -(one * l)
    } else {
        r.min_along == -(one * b) && r.max_along == -(one * t) && r.min_across == one * l
            && r.max_across == one * rt
    }
}

/// Whether four numbers are the outermost edges of the glyphs that show something
/// among the first `n`.
pub open spec fn are_outer_edges(
    glyphs: Seq<Glyph>,
    codepoints: Seq<u32>,
    n: int,
    left: int,
    top: int,
    right: int,
    bottom: int,
) -> bool {
    &&& forall|i: int|
        0 <= i < n && #[trigger] shows_something(glyphs[i], codepoints[i]) ==> left
            <= glyphs[i].strict.left.emu && top <= glyphs[i].strict.top.emu
            && glyphs[i].strict.right.emu <= right && glyphs[i].strict.bottom.emu <= bottom
    &&& exists|i: int|
        0 <= i < n && #[trigger] shows_something(glyphs[i], codepoints[i])
            && glyphs[i].strict.left.emu == left
    &&& exists|i: int|
        0 <= i < n && #[trigger] shows_something(glyphs[i], codepoints[i])
            && glyphs[i].strict.top.emu == top
    &&& exists|i: int|
        0 <= i < n && #[trigger] shows_something(glyphs[i], codepoints[i])
            && glyphs[i].strict.right.emu == right
    &&& exists|i: int|
        0 <= i < n && #[trigger] shows_something(glyphs[i], codepoints[i])
            && glyphs[i].strict.bottom.emu == bottom
}

proof fn lemma_reach_edges(
    glyphs: Seq<Glyph>,
    codepoints: Seq<u32>,
    d: Direction,
    n: int,
) -> (e: (int, int, int, int))
    requires
        right_angled(d),
        0 <= n <= glyphs.len(),
    ensures
        match raw_text::reach_upto(glyphs, codepoints, d, n) {
            Some(r) => {
                &&& holds_upto(r, d, e.0, e.1, e.2, e.3)
                &&& are_outer_edges(glyphs, codepoints, n, e.0, e.1, e.2, e.3)
                &&& units::fits(e.0) && units::fits(e.1) && units::fits(e.2) && units::fits(e.3)
            },
            None => forall|i: int|
                0 <= i < n ==> !#[trigger] shows_something(glyphs[i], codepoints[i]),
        },
    decreases n,
{
    if n <= 0 {
        (0, 0, 0, 0)
    } else {
        let o = lemma_reach_edges(glyphs, codepoints, d, n - 1);
        let g = glyphs[n - 1];
        let c = codepoints[n - 1];
        assert(raw_text::grounds(g, c) == shows_something(g, c));
        let before = raw_text::reach_upto(glyphs, codepoints, d, n - 1);
        if shows_something(g, c) {
            let (l, t, r, b) = (
                g.strict.left.emu as int,
                g.strict.top.emu as int,
                g.strict.right.emu as int,
                g.strict.bottom.emu as int,
            );
            lemma_own_reach(g.strict, d);
            assert(shows_something(glyphs[n - 1], codepoints[n - 1]));
            if before is Some {
                let e = (
                    if l < o.0 {
                        l
                    } else {
                        o.0
                    },
                    if t < o.1 {
                        t
                    } else {
                        o.1
                    },
                    if r > o.2 {
                        r
                    } else {
                        o.2
                    },
                    if b > o.3 {
                        b
                    } else {
                        o.3
                    },
                );
                assert(are_outer_edges(glyphs, codepoints, n, e.0, e.1, e.2, e.3));
                e
            } else {
                assert(are_outer_edges(glyphs, codepoints, n, l, t, r, b));
                (l, t, r, b)
            }
        } else {
            if before is Some {
                assert(are_outer_edges(glyphs, codepoints, n, o.0, o.1, o.2, o.3));
            }
            o
        }
    }
}

proof fn lemma_own_reach(b: RectF, d: Direction)
    requires
        right_angled(d),
        b.left.emu < b.right.emu,
        b.top.emu < b.bottom.emu,
    ensures
        holds_upto(
            raw_text::reach_of(b, d),
            d,
            b.left.emu as int,
            b.top.emu as int,
            b.right.emu as int,
            b.bottom.emu as int,
        ),
{
    lemma_axis(d, b.left, b.top);
    lemma_axis(d, b.right, b.top);
    lemma_axis(d, b.left, b.bottom);
    lemma_axis(d, b.right, b.bottom);
}

proof fn lemma_axis(d: Direction, x: Pt, y: Pt)
    requires
        right_angled(d),
    ensures
        d.sin == 0 && d.cos > 0 ==> raw_text::along(d, x, y) == 1073741824 * x.emu
            && raw_text::across(d, x, y) == 1073741824 * y.emu,
        d.sin == 0 && d.cos < 0 ==> raw_text::along(d, x, y) == -(1073741824 * x.emu)
            && raw_text::across(d, x, y) == -(1073741824 * y.emu),
        d.cos == 0 && d.sin > 0 ==> raw_text::along(d, x, y) == 1073741824 * y.emu
            && raw_text::across(d, x, y) == -(1073741824 * x.emu),
        d.cos == 0 && d.sin < 0 ==> raw_text::along(d, x, y) == -(1073741824 * y.emu)
            && raw_text::across(d, x, y) == 1073741824 * x.emu,
{
    let (s, c, u, v) = (d.sin as int, d.cos as int, x.emu as int, y.emu as int);
    if s == 0 {
        assert(s * u == 0 && s * v == 0) by (nonlinear_arith)
            requires
                s == 0,
        ;
        if c > 0 {
            assert(c * u == 1073741824 * u && c * v == 1073741824 * v) by (nonlinear_arith)
                requires
                    c == 1073741824,
            ;
        } else {
            assert(c * u == -(1073741824 * u) && c * v == -(1073741824 * v)) by (nonlinear_arith)
                requires
                    c == -1073741824,
            ;
        }
    } else {
        assert(c * u == 0 && c * v == 0) by (nonlinear_arith)
            requires
                c == 0,
        ;
        if s > 0 {
            assert(s * u == 1073741824 * u && s * v == 1073741824 * v) by (nonlinear_arith)
                requires
                    s == 1073741824,
            ;
        } else {
            assert(s * u == -(1073741824 * u) && s * v == -(1073741824 * v)) by (nonlinear_arith)
                requires
                    s == -1073741824,
            ;
        }
    }
}

/// Whether a box lies about the middle of the four edges with sides of the given
/// lengths.
pub open spec fn lies_about_middle(
    r: RectF,
    left: int,
    top: int,
    right: int,
    bottom: int,
    width: int,
    height: int,
) -> bool {
    &&& r.left.emu == units::sat((left + right - width + 1) / 2)
    &&& r.right.emu == units::sat((left + right + width + 1) / 2)
    &&& r.top.emu == units::sat((top + bottom - height + 1) / 2)
    &&& r.bottom.emu == units::sat((top + bottom + height + 1) / 2)
}

/// Along a level baseline, upside down or not, the tight box of an item is the
/// smallest one that holds the tight boxes of its glyphs that show something. Along
/// an upright one it lies about the middle of that box, and is as wide as that one
/// is high, and as high as it is wide. There is none where nothing is shown.
pub proof fn tight_box_holds_what_is_shown(
    glyphs: Seq<Glyph>,
    codepoints: Seq<u32>,
    d: Direction,
)
    requires
        right_angled(d),
        codepoints.len() == glyphs.len(),
    ensures
        match raw_text::tight_box(glyphs, codepoints, d) {
            Some(r) => exists|left: int, top: int, right: int, bottom: int|
                {
                    &&& #[trigger] are_outer_edges(
                        glyphs,
                        codepoints,
                        glyphs.len() as int,
                        left,
                        top,
                        right,
                        bottom,
                    )
                    &&& d.sin == 0 ==> r.left.emu == left && r.top.emu == top && r.right.emu
                        == right && r.bottom.emu == bottom
                    &&& d.cos == 0 ==> lies_about_middle(
                        r,
                        left,
                        top,
                        right,
                        bottom,
                        bottom - top,
                        right - left,
                    )
                },
            None => forall|i: int|
                0 <= i < glyphs.len() ==> !#[trigger] shows_something(glyphs[i], codepoints[i]),
        },
{
    let n = glyphs.len() as int;
    let e = lemma_reach_edges(glyphs, codepoints, d, n);
    if let Some(r) = raw_text::reach_upto(glyphs, codepoints, d, n) {
        lemma_centred(r, d, e.0, e.1, e.2, e.3);
        assert(are_outer_edges(glyphs, codepoints, n, e.0, e.1, e.2, e.3));
    }
}

proof fn lemma_centred(r: raw_text::Reach, d: Direction, l: int, t: int, rt: int, b: int)
    requires
        right_angled(d),
        holds_upto(r, d, l, t, rt, b),
        units::fits(l),
        units::fits(t),
        units::fits(rt),
        units::fits(b),
    ensures
        ({
            let c = raw_text::centred_box(r, d);
            &&& d.sin == 0 ==> c.left.emu == l && c.top.emu == t && c.right.emu == rt
                && c.bottom.emu == b
            &&& d.cos == 0 ==> lies_about_middle(c, l, t, rt, b, b - t, rt - l)
        }),
{
    let one = 1073741824int;
    let a = r.min_along + r.max_along;
    let e = r.min_across + r.max_across;
    let (s, c) = (d.sin as int, d.cos as int);
    let cx = c * a - s * e;
    let cy = s * a + c * e;
    let w = one * (r.max_along - r.min_along);
    let h = one * (r.max_across - r.min_across);
    let sq = 0x1000_0000_0000_0000int;
    assert(cx == sq * (l + rt) && cy == sq * (t + b)) by {
        if s == 0 && c == one {
            assert(c * a - s * e == 0x1000_0000_0000_0000int * (l + rt)) by (nonlinear_arith)
                requires
                    s == 0,
                    c == 1073741824,
                    a == 1073741824 * l + 1073741824 * rt,
            ;
            assert(s * a + c * e == 0x1000_0000_0000_0000int * (t + b)) by (nonlinear_arith)
                requires
                    s == 0,
                    c == 1073741824,
                    e == 1073741824 * t + 1073741824 * b,
            ;
        } else if s == 0 {
            assert(c * a - s * e == 0x1000_0000_0000_0000int * (l + rt)) by (nonlinear_arith)
                requires
                    s == 0,
                    c == -1073741824,
                    a == -(1073741824 * rt) - (1073741824 * l),
            ;
            assert(s * a + c * e == 0x1000_0000_0000_0000int * (t + b)) by (nonlinear_arith)
                requires
                    s == 0,
                    c == -1073741824,
                    e == -(1073741824 * b) - (1073741824 * t),
            ;
        } else if s == one {
            assert(c * a - s * e == 0x1000_0000_0000_0000int * (l + rt)) by (nonlinear_arith)
                requires
                    c == 0,
                    s == 1073741824,
                    e == -(1073741824 * rt) - (1073741824 * l),
            ;
            assert(s * a + c * e == 0x1000_0000_0000_0000int * (t + b)) by (nonlinear_arith)
                requires
                    c == 0,
                    s == 1073741824,
                    a == 1073741824 * t + 1073741824 * b,
            ;
        } else {
            assert(c * a - s * e == 0x1000_0000_0000_0000int * (l + rt)) by (nonlinear_arith)
                requires
                    c == 0,
                    s == -1073741824,
                    e == 1073741824 * l + 1073741824 * rt,
            ;
            assert(s * a + c * e == 0x1000_0000_0000_0000int * (t + b)) by (nonlinear_arith)
                requires
                    c == 0,
                    s == -1073741824,
                    a == -(1073741824 * b) - (1073741824 * t),
            ;
        }
    }
    if s == 0 {
        assert(w == sq * (rt - l) && h == sq * (b - t));
    } else {
        assert(w == sq * (b - t) && h == sq * (rt - l));
    }
}

/// The tight box of an item along a level baseline is the smallest that holds what
/// its glyphs show; an item that shows nothing has none.
pub proof fn level_items_ground_what_they_show(
    items: Seq<RawTextItem>,
    glyphs: Seq<Glyph>,
    facts: Seq<GlyphFacts>,
    k: int,
)
    requires
        page_items(items, glyphs, facts, false),
        0 <= k < items.len(),
        ({
            let d = facts[made_of(glyphs, facts, false, k).0].direction;
            d.sin == 0 && d.cos == 1073741824
        }),
    ensures
        ({
            let (a, b) = made_of(glyphs, facts, false, k);
            match items[k].grounding_bounds {
                Some(r) => {
                    &&& forall|i: int|
                        a <= i < b && shows_something(
                            #[trigger] glyphs[i],
                            glyphs[i].unicode,
                        ) ==> r.left.emu <= glyphs[i].strict.left.emu && r.top.emu
                            <= glyphs[i].strict.top.emu && glyphs[i].strict.right.emu
                            <= r.right.emu && glyphs[i].strict.bottom.emu <= r.bottom.emu
                    &&& exists|i: int|
                        a <= i < b && !(#[trigger] glyphs[i]).generated && glyphs[i].strict.left
                            == r.left
                    &&& exists|i: int|
                        a <= i < b && !(#[trigger] glyphs[i]).generated && glyphs[i].strict.top
                            == r.top
                    &&& exists|i: int|
                        a <= i < b && !(#[trigger] glyphs[i]).generated && glyphs[i].strict.right
                            == r.right
                    &&& exists|i: int|
                        a <= i < b && !(#[trigger] glyphs[i]).generated && glyphs[i].strict.bottom
                            == r.bottom
                },
                None => forall|i: int|
                    a <= i < b ==> !shows_something(#[trigger] glyphs[i], glyphs[i].unicode),
            }
        }),
{
    lemma_made_of_a_run(items, glyphs, facts, false, k);
    let (a, b) = made_of(glyphs, facts, false, k);
    let own = glyphs.subrange(a, b);
    let codes = raw_text::final_codes(glyphs, facts, a, b, false);
    tight_box_holds_what_is_shown(own, codes, facts[a].direction);
    assert forall|i: int| a <= i < b implies own[i - a] == #[trigger] glyphs[i] && codes[i - a]
        == glyphs[i].unicode by {}
    match items[k].grounding_bounds {
        Some(r) => {
            let (l, t, rt, bt) = choose|left: int, top: int, right: int, bottom: int|
                {
                    &&& #[trigger] are_outer_edges(
                        own,
                        codes,
                        own.len() as int,
                        left,
                        top,
                        right,
                        bottom,
                    )
                    &&& r.left.emu == left && r.top.emu == top && r.right.emu == right
                        && r.bottom.emu == bottom
                };
            assert forall|i: int|
                a <= i < b && shows_something(
                    #[trigger] glyphs[i],
                    glyphs[i].unicode,
                ) implies r.left.emu <= glyphs[i].strict.left.emu && r.top.emu
                <= glyphs[i].strict.top.emu && glyphs[i].strict.right.emu <= r.right.emu
                && glyphs[i].strict.bottom.emu <= r.bottom.emu by {
                assert(shows_something(own[i - a], codes[i - a]));
            }
            let i0 = choose|i: int|
                0 <= i < own.len() && #[trigger] shows_something(own[i], codes[i])
                    && own[i].strict.left.emu == l;
            let i1 = choose|i: int|
                0 <= i < own.len() && #[trigger] shows_something(own[i], codes[i])
                    && own[i].strict.top.emu == t;
            let i2 = choose|i: int|
                0 <= i < own.len() && #[trigger] shows_something(own[i], codes[i])
                    && own[i].strict.right.emu == rt;
            let i3 = choose|i: int|
                0 <= i < own.len() && #[trigger] shows_something(own[i], codes[i])
                    && own[i].strict.bottom.emu == bt;
            assert(glyphs[a + i0] == own[i0]);
            assert(glyphs[a + i1] == own[i1]);
            assert(glyphs[a + i2] == own[i2]);
            assert(glyphs[a + i3] == own[i3]);
        },
        None => {
            assert forall|i: int| a <= i < b implies !shows_something(
                #[trigger] glyphs[i],
                glyphs[i].unicode,
            ) by {
                assert(own[i - a] == glyphs[i]);
                assert(!shows_something(own[i - a], codes[i - a]));
            }
        },
    }
}

proof fn lemma_advances(
    glyphs: Seq<Glyph>,
    facts: Seq<GlyphFacts>,
    a: int,
    n: int,
    w: int,
)
    requires
        0 <= a <= n,
        0 <= w,
        units::fits(w * (n - a)),
        forall|i: int|
            a <= i < n ==> !(#[trigger] glyphs[i]).generated && (facts[i].code_width matches Some(
                v,
            ) && v.emu == w),
    ensures
        raw_text::advance_upto(glyphs, facts, a, n).emu == w * (n - a),
    decreases n - a,
{
    if n > a {
        assert(w * (n - 1 - a) == w * (n - a) - w) by (nonlinear_arith);
        assert(0 <= w * (n - 1 - a)) by (nonlinear_arith)
            requires
                0 <= w,
                0 <= n - 1 - a,
        ;
        lemma_advances(glyphs, facts, a, n - 1, w);
        assert(!glyphs[n - 1].generated);
    } else {
        assert(w * (n - a) == 0) by (nonlinear_arith)
            requires
                n == a,
        ;
    }
}

/// An item of a known font is as wide as its glyphs advance: so many times the
/// advance of one, where all advance alike, and a last one that was made up adds
/// what its character is wide.
pub proof fn items_are_as_wide_as_their_glyphs_advance(
    items: Seq<RawTextItem>,
    glyphs: Seq<Glyph>,
    facts: Seq<GlyphFacts>,
    resolving: bool,
    k: int,
    w: int,
)
    requires
        page_items(items, glyphs, facts, resolving),
        0 <= k < items.len(),
        0 <= w,
        ({
            let (a, b) = made_of(glyphs, facts, resolving, k);
            &&& glyphs[a].text_object is Some && facts[a].font is Some
            &&& units::fits(w * (b - a))
            &&& !glyphs[a].generated
            &&& forall|i: int|
                a <= i < b && !(#[trigger] glyphs[i]).generated ==> (
                facts[i].code_width matches Some(v) && v.emu == w)
        }),
    ensures
        ({
            let (a, b) = made_of(glyphs, facts, resolving, k);
            let width = items[k].text_width.emu as int;
            &&& !glyphs[b - 1].generated ==> width == w * (b - a)
            &&& glyphs[b - 1].generated ==> match facts[b - 1].unicode_width {
                Some(v) => width == units::sat(w * (b - 1 - a) + v.emu),
                None => width == w * (b - 1 - a),
            }
        }),
{
    lemma_made_of_a_run(items, glyphs, facts, resolving, k);
    let (a, b) = made_of(glyphs, facts, resolving, k);
    assert(w * (b - 1 - a) == w * (b - a) - w) by (nonlinear_arith);
    assert(0 <= w * (b - 1 - a)) by (nonlinear_arith)
        requires
            0 <= w,
            0 <= b - 1 - a,
    ;
    assert forall|i: int| a <= i < b - 1 implies !(#[trigger] glyphs[i]).generated by {
        assert(!raw_text::closes(glyphs[i]));
    }
    lemma_advances(glyphs, facts, a, b - 1, w);
    if !glyphs[b - 1].generated {
        lemma_advances(glyphs, facts, a, b, w);
    }
}

/// Whether a glyph can stand beside a measured gap: one of the page's own content
/// that shows something, in a font that runs level.
pub open spec fn stands_beside_gap(g: Glyph, f: GlyphFacts) -> bool {
    &&& !g.generated && g.text_object is Some
    &&& f.gap.unicode != 0 && !ascii_space(f.gap.unicode as int)
    &&& f.font matches Some(font) && (font.font_type == FontType::Type1 || font.font_type
        == FontType::TrueType)
}

/// A gap is told only of a single made-up space between two glyphs of the page's
/// own content, whose baselines run alike.
pub proof fn gaps_stand_between_glyphs(
    items: Seq<RawTextItem>,
    glyphs: Seq<Glyph>,
    facts: Seq<GlyphFacts>,
    resolving: bool,
    k: int,
)
    requires
        page_items(items, glyphs, facts, resolving),
        0 <= k < items.len(),
        items[k].baseline_gap is Some,
    ensures
        ({
            let (a, b) = made_of(glyphs, facts, resolving, k);
            &&& b == a + 1 && glyphs[a].generated && glyphs[a].unicode == 32
            &&& 0 < a && b < glyphs.len()
            &&& !glyphs[a - 1].generated && !glyphs[b].generated
            &&& glyphs[a - 1].text_object is Some && glyphs[b].text_object is Some
            &&& facts[a - 1].gap.unicode != 0 && !ascii_space(facts[a - 1].gap.unicode as int)
            &&& facts[b].gap.unicode != 0 && !ascii_space(facts[b].gap.unicode as int)
            &&& facts[a - 1].gap.advance is Some
            &&& facts[a - 1].gap.baseline matches Some(p) && facts[b].gap.baseline matches Some(n)
                && -1073 <= p.sin - n.sin <= 1073 && -1073 <= p.cos - n.cos <= 1073
            &&& facts[a - 1].font matches Some(font) && {
                ||| font.font_type == FontType::Type1
                ||| font.font_type == FontType::TrueType
                ||| facts[a - 1].gap.encoding matches Some(e) && e@ == "Identity-H"@ && (
                font.font_type == FontType::CidType0 || font.font_type == FontType::CidType2)
            }
        }),
{
    lemma_made_of_a_run(items, glyphs, facts, resolving, k);
}

/// The gap along a level baseline is the way from the end of the glyph before it to
/// the start of the one after it, and along an upright one the same way down; none
/// is told where the glyph after it starts before the one in front of it.
pub proof fn gaps_are_measured_along_the_baseline(
    items: Seq<RawTextItem>,
    glyphs: Seq<Glyph>,
    facts: Seq<GlyphFacts>,
    resolving: bool,
    k: int,
)
    requires
        page_items(items, glyphs, facts, resolving),
        0 <= k < items.len(),
        ({
            let (a, b) = made_of(glyphs, facts, resolving, k);
            &&& b == a + 1 && glyphs[a].generated && glyphs[a].unicode == 32
            &&& 0 < a && b < glyphs.len()
            &&& stands_beside_gap(glyphs[a - 1], facts[a - 1])
            &&& stands_beside_gap(glyphs[b], facts[b])
            &&& facts[a - 1].gap.advance is Some
            &&& facts[a - 1].gap.origin is Some && facts[b].gap.origin is Some
            &&& facts[a - 1].gap.baseline is Some
            &&& facts[b].gap.baseline == facts[a - 1].gap.baseline
        }),
    ensures
        ({
            let (a, b) = made_of(glyphs, facts, resolving, k);
            let (p, n) = (facts[a - 1].gap, facts[b].gap);
            let d = p.baseline->0;
            let right = (n.origin->0).0.emu - (p.origin->0).0.emu;
            let down = (n.origin->0).1.emu - (p.origin->0).1.emu;
            &&& d.sin == 0 && d.cos == 1073741824 ==> match items[k].baseline_gap {
                Some(gap) => right >= 0 && gap.emu == units::sat(right - p.advance->0.emu),
                None => right < 0,
            }
            &&& d.cos == 0 && d.sin == 1073741824 ==> match items[k].baseline_gap {
                Some(gap) => down >= 0 && gap.emu == units::sat(down - p.advance->0.emu),
                None => down < 0,
            }
        }),
{
    lemma_made_of_a_run(items, glyphs, facts, resolving, k);
    let (a, b) = made_of(glyphs, facts, resolving, k);
    let (p, n) = (facts[a - 1].gap, facts[b].gap);
    let d = p.baseline->0;
    let (s, c) = (d.sin as int, d.cos as int);
    let right = (n.origin->0).0.emu - (p.origin->0).0.emu;
    let down = (n.origin->0).1.emu - (p.origin->0).1.emu;
    if s == 0 && c == 1073741824 {
        assert(c * right + s * down == 1073741824 * right) by (nonlinear_arith)
            requires
                s == 0,
                c == 1073741824,
        ;
    }
    if c == 0 && s == 1073741824 {
        assert(c * right + s * down == 1073741824 * down) by (nonlinear_arith)
            requires
                c == 0,
                s == 1073741824,
        ;
    }
}

/// Glyph names are told of a font that names its glyphs, and of no other: one for
/// each glyph, empty where it has none.
pub proof fn glyph_names_are_told_of_fonts_that_name(
    items: Seq<RawTextItem>,
    glyphs: Seq<Glyph>,
    facts: Seq<GlyphFacts>,
    resolving: bool,
    k: int,
)
    requires
        page_items(items, glyphs, facts, resolving),
        0 <= k < items.len(),
    ensures
        ({
            let (a, b) = made_of(glyphs, facts, resolving, k);
            match items[k].glyph_names {
                Some(names) => {
                    &&& glyphs[a].text_object is Some
                    &&& facts[a].font matches Some(font) && font.font_type == FontType::Type3
                    &&& names@.len() == b - a
                    &&& forall|i: int|
                        a <= i < b ==> match (#[trigger] facts[i]).glyph_name {
                            Some(name) => names@[i - a]@ == name@,
                            None => names@[i - a]@.len() == 0,
                        }
                },
                None => glyphs[a].text_object is None || facts[a].font is None
                    || facts[a].font->0.font_type != FontType::Type3,
            }
        }),
{
    lemma_made_of_a_run(items, glyphs, facts, resolving, k);
    let (a, b) = made_of(glyphs, facts, resolving, k);
    if let Some(names) = items[k].glyph_names {
        assert forall|i: int| a <= i < b implies match (#[trigger] facts[i]).glyph_name {
            Some(name) => names@[i - a]@ == name@,
            None => names@[i - a]@.len() == 0,
        } by {
            assert(names@[i - a]@ == raw_text::text_or_empty(facts[a + (i - a)].glyph_name));
        }
    }
}

/// White space at the end of a text does not count when items are told apart, and
/// nothing else is left out.
pub proof fn only_space_at_the_end_is_trimmed(s: Seq<char>, c: char)
    ensures
        ascii_space(c as int) ==> raw_text::c_trimmed(s.push(c)) == raw_text::c_trimmed(s),
        !ascii_space(c as int) ==> raw_text::c_trimmed(s.push(c)) == s.push(c),
        raw_text::c_trimmed(Seq::<char>::empty()) == Seq::<char>::empty(),
{
    assert(s.push(c).drop_last() =~= s);
    assert(c as u32 == c as int);
}

/// Two items of one text are the same exactly where their four edges lie less than
/// a hundredth of a point apart, and their angles less than a thousandth of a
/// radian.
pub proof fn same_items_lie_in_one_place(a: RawTextItem, b: RawTextItem, s: Seq<char>, c: char)
    requires
        a.text@ == s.push(c),
        b.text@ == s.push(c),
        !ascii_space(c as int),
        units::fits(a.x.emu + a.width.emu),
        units::fits(b.x.emu + b.width.emu),
        units::fits(a.y.emu + a.height.emu),
        units::fits(b.y.emu + b.height.emu),
    ensures
        ({
            let right = (a.x.emu + a.width.emu) - (b.x.emu + b.width.emu);
            let bottom = (a.y.emu + a.height.emu) - (b.y.emu + b.height.emu);
            raw_text::same_item(a, b) == (-127 < a.x.emu - b.x.emu < 127 && -127 < a.y.emu
                - b.y.emu < 127 && -127 < right < 127 && -127 < bottom < 127 && -1000 < a.angle
                - b.angle < 1000)
        }),
{
    only_space_at_the_end_is_trimmed(s, c);
}

/// Items that say different things are never the same.
pub proof fn same_items_say_the_same(a: RawTextItem, b: RawTextItem)
    requires
        raw_text::same_item(a, b),
        a.text@.len() > 0,
        b.text@.len() > 0,
        !ascii_space(a.text@.last() as int),
        !ascii_space(b.text@.last() as int),
    ensures
        a.text@ == b.text@,
{
    only_space_at_the_end_is_trimmed(a.text@.drop_last(), a.text@.last());
    only_space_at_the_end_is_trimmed(b.text@.drop_last(), b.text@.last());
    assert(a.text@ =~= a.text@.drop_last().push(a.text@.last()));
    assert(b.text@ =~= b.text@.drop_last().push(b.text@.last()));
}

/// The text of form fields is added behind the items of a page: each field in
/// order, as it is but without a mark, and only where no item says the same in the
/// same place.
pub proof fn fields_are_added_in_order(
    items: Seq<RawTextItem>,
    widgets: Seq<RawTextItem>,
    n: int,
)
    requires
        0 < n <= widgets.len(),
    ensures
        ({
            let before = raw_text::widget_additions(items, widgets, n - 1);
            let after = raw_text::widget_additions(items, widgets, n);
            let w = widgets[n - 1];
            let known = exists|i: int|
                0 <= i < items.len() && raw_text::same_item(w, #[trigger] items[i]);
            &&& raw_text::widget_additions(items, widgets, 0).len() == 0
            &&& known ==> after == before
            &&& !known ==> {
                &&& after.len() == before.len() + 1
                &&& after.take(before.len() as int) == before
                &&& after.last().mcid is None
                &&& after.last().text@ == w.text@
                &&& after.last().x == w.x && after.last().y == w.y
                &&& after.last().width == w.width && after.last().height == w.height
                &&& after.last().angle == w.angle
                &&& after.last().font_name@ == w.font_name@
                &&& after.last().font_size == w.font_size
                &&& after.last().font_weight == w.font_weight
                &&& after.last().font_height == w.font_height
                &&& after.last().fill_color == w.fill_color
                &&& after.last().stroke_color == w.stroke_color
                &&& after.last().text_width == w.text_width
                &&& after.last().char_codes@ == w.char_codes@
                &&& after.last().grounding_bounds == w.grounding_bounds
                &&& after.last().baseline_gap == w.baseline_gap
                &&& after.last().font_is_buggy == w.font_is_buggy
                &&& after.last().trailing_space_generated == w.trailing_space_generated
                &&& after.last().font_ascent == w.font_ascent
                &&& after.last().font_descent == w.font_descent
                &&& after.last().glyph_names == w.glyph_names
            }
        }),
{
    let before = raw_text::widget_additions(items, widgets, n - 1);
    let after = raw_text::widget_additions(items, widgets, n);
    if after != before {
        assert(after.take(before.len() as int) =~= before);
    }
}

/// An item of a single glyph is as wide as the code of it advances, also where it was
/// made up.
pub proof fn single_glyphs_are_as_wide_as_their_code(
    items: Seq<RawTextItem>,
    glyphs: Seq<Glyph>,
    facts: Seq<GlyphFacts>,
    resolving: bool,
    k: int,
)
    requires
        page_items(items, glyphs, facts, resolving),
        0 <= k < items.len(),
        ({
            let (a, b) = made_of(glyphs, facts, resolving, k);
            b == a + 1 && glyphs[a].text_object is Some && facts[a].font is Some
        }),
    ensures
        ({
            let a = made_of(glyphs, facts, resolving, k).0;
            match facts[a].code_width {
                Some(w) => items[k].text_width == w,
                None => items[k].text_width.emu == 0,
            }
        }),
{
    lemma_made_of_a_run(items, glyphs, facts, resolving, k);
    let a = made_of(glyphs, facts, resolving, k).0;
    reveal_with_fuel(raw_text::advance_upto, 2);
}

/// A text is made of characters: code points of which one is none, a surrogate or beyond
/// the last, make no text, and any others do.
pub proof fn texts_are_made_of_characters(codes: Seq<u32>)
    ensures
        raw_text::c_string(codes) is Some <==> forall|i: int|
            0 <= i < codes.len() ==> (#[trigger] codes[i] <= 0xd7ff || 0xe000 <= codes[i]
                <= 0x10ffff),
{
    if raw_text::c_string(codes) is Some {
        assert forall|i: int| 0 <= i < codes.len() implies (#[trigger] codes[i] <= 0xd7ff
            || 0xe000 <= codes[i] <= 0x10ffff) by {
            assert(raw_text::is_scalar(codes[i]));
        }
    }
    if forall|i: int|
        0 <= i < codes.len() ==> (#[trigger] codes[i] <= 0xd7ff || 0xe000 <= codes[i]
            <= 0x10ffff) {
        assert forall|i: int| 0 <= i < codes.len() implies raw_text::is_scalar(
            #[trigger] codes[i],
        ) by {}
    }
}

/// How far a point lies along a direction, and how far across it.
pub open spec fn reaches(d: Direction, x: Pt, y: Pt) -> (int, int) {
    (d.cos * x.emu + d.sin * y.emu, d.cos * y.emu - d.sin * x.emu)
}

/// Whether a reach holds a point.
pub open spec fn reach_holds(r: raw_text::Reach, p: (int, int)) -> bool {
    r.min_along <= p.0 <= r.max_along && r.min_across <= p.1 <= r.max_across
}

/// However the baseline slants, a box reaches along it and across it from its nearest
/// corner to its furthest: it holds all four, and each of its ends is one of them.
pub proof fn boxes_reach_from_corner_to_corner(b: RectF, d: Direction)
    ensures
        ({
            let r = raw_text::reach_of(b, d);
            let p = reaches(d, b.left, b.top);
            let q = reaches(d, b.right, b.top);
            let s = reaches(d, b.left, b.bottom);
            let t = reaches(d, b.right, b.bottom);
            &&& reach_holds(r, p) && reach_holds(r, q) && reach_holds(r, s) && reach_holds(r, t)
            &&& r.min_along == p.0 || r.min_along == q.0 || r.min_along == s.0 || r.min_along
                == t.0
            &&& r.max_along == p.0 || r.max_along == q.0 || r.max_along == s.0 || r.max_along
                == t.0
            &&& r.min_across == p.1 || r.min_across == q.1 || r.min_across == s.1 || r.min_across
                == t.1
            &&& r.max_across == p.1 || r.max_across == q.1 || r.max_across == s.1 || r.max_across
                == t.1
        }),
{
}

/// Glyphs that show something reach together as far as each of them: from the nearest to
/// the furthest.
pub proof fn glyphs_reach_from_nearest_to_furthest(
    glyphs: Seq<Glyph>,
    codepoints: Seq<u32>,
    d: Direction,
    n: int,
)
    requires
        0 < n <= glyphs.len(),
    ensures
        ({
            let before = raw_text::reach_upto(glyphs, codepoints, d, n - 1);
            let after = raw_text::reach_upto(glyphs, codepoints, d, n);
            let own = raw_text::reach_of(glyphs[n - 1].strict, d);
            let shown = shows_something(glyphs[n - 1], codepoints[n - 1]);
            &&& raw_text::reach_upto(glyphs, codepoints, d, 0) is None
            &&& !shown ==> after == before
            &&& shown && before is None ==> after == Some(own)
            &&& shown ==> (before matches Some(b) ==> {
                &&& after matches Some(r)
                &&& r.min_along <= b.min_along && r.min_along <= own.min_along
                &&& r.min_along == b.min_along || r.min_along == own.min_along
                &&& r.max_along >= b.max_along && r.max_along >= own.max_along
                &&& r.max_along == b.max_along || r.max_along == own.max_along
                &&& r.min_across <= b.min_across && r.min_across <= own.min_across
                &&& r.min_across == b.min_across || r.min_across == own.min_across
                &&& r.max_across >= b.max_across && r.max_across >= own.max_across
                &&& r.max_across == b.max_across || r.max_across == own.max_across
            })
        }),
{
    assert(raw_text::grounds(glyphs[n - 1], codepoints[n - 1]) == shows_something(
        glyphs[n - 1],
        codepoints[n - 1],
    ));
}

}
