//! Raw text items: runs of glyphs with a fixed segmentation and no heuristics.
//!
//! An item is a run of glyphs of one text object at one angle. White space of
//! the ASCII kind and generated glyphs end an item; a generated line end ends
//! it and belongs to none. Every other glyph belongs to exactly one run, in
//! page order.
use crate::text;
use crate::units;
use crate::units::{Direction, Pt};
use vstd::prelude::*;

verus! {

/// A box by its four edges.
#[derive(Clone, Copy, PartialEq, Eq, Structural, Debug)]
pub struct RectF {
    pub left: Pt,
    pub top: Pt,
    pub right: Pt,
    pub bottom: Pt,
}

/// A colour with opacity.
#[derive(Clone, Copy, PartialEq, Eq, Structural, Debug)]
pub struct Color {
    pub r: u8,
    pub g: u8,
    pub b: u8,
    pub a: u8,
}

/// One glyph of a page.
#[derive(Clone, Copy, PartialEq, Eq, Structural, Debug)]
pub struct Glyph {
    /// The text object that it belongs to.
    pub text_object: Option<usize>,
    /// Whether it stands for a gap, not for anything in the page's content.
    pub generated: bool,
    /// Its code in the page's content; 0 for a generated glyph.
    pub char_code: u32,
    /// Its code point; 0 where it is not known.
    pub unicode: u32,
    /// Its loose box.
    pub loose: RectF,
    /// Its tight box.
    pub strict: RectF,
    /// The direction of its baseline in millionths of a radian.
    pub angle: i64,
}

/// What is known of the font that an item is set in.
#[derive(Debug)]
pub struct ItemFont {
    pub base_name: Option<String>,
    pub ascent: Option<Pt>,
    pub descent: Option<Pt>,
    pub embedded: bool,
    /// Whether its name and type are those of a subset with made-up codes.
    pub suspect_name: bool,
    pub font_type: FontType,
}

/// The kind of a font.
#[derive(Clone, Copy, PartialEq, Eq, Structural, Debug)]
pub enum FontType {
    Unknown,
    Type1,
    TrueType,
    Type3,
    CidType0,
    CidType2,
}

/// What is known of a glyph besides its place.
#[derive(Debug)]
pub struct GlyphFacts {
    /// How far its code advances in its font.
    pub code_width: Option<Pt>,
    /// How far its code point advances in its font.
    pub unicode_width: Option<Pt>,
    /// Whether its code point is a control or private-use one.
    pub suspect: bool,
    /// The code point that the font's own name for the glyph stands for.
    pub named: Option<u32>,
    /// The code point that its outline was recognised as.
    pub recognised: Option<u32>,
    /// The font's own name for the glyph.
    pub glyph_name: Option<String>,
    /// The font of its text object.
    pub font: Option<ItemFont>,
    pub font_size: Pt,
    pub font_weight: i32,
    /// The font size under the vertical scale of the text.
    pub scaled_size: Pt,
    pub mcid: Option<i32>,
    pub fill: Option<Color>,
    pub stroke: Option<Color>,
    /// The direction of the glyph's angle.
    pub direction: Direction,
    /// What it contributes to the gap next to it.
    pub gap: GapFacts,
}

/// What a glyph contributes to the measure of a gap next to it.
#[derive(Debug)]
pub struct GapFacts {
    /// Its code point as the page gives it.
    pub unicode: u32,
    /// The encoding of its font.
    pub encoding: Option<String>,
    /// The direction of its baseline, where its scale is positive.
    pub baseline: Option<Direction>,
    /// Where it stands.
    pub origin: Option<(Pt, Pt)>,
    /// How far it advances on the page.
    pub advance: Option<Pt>,
}

impl GlyphFacts {
    /// Whether its directions are in range.
    pub open spec fn ok(self) -> bool {
        &&& self.direction.ok()
        &&& self.gap.baseline matches Some(d) ==> d.ok()
    }
}

/// One raw text item.
#[derive(Debug)]
pub struct RawTextItem {
    pub text: String,
    /// One per glyph; 0 for a generated one.
    pub char_codes: Vec<u32>,
    /// One per glyph, for fonts that name their glyphs themselves.
    pub glyph_names: Option<Vec<String>>,
    /// In millionths of a radian.
    pub angle: i64,
    pub text_width: Pt,
    pub x: Pt,
    pub y: Pt,
    pub width: Pt,
    pub height: Pt,
    /// The tight box of the real glyphs, to be turned about its centre.
    pub grounding_bounds: Option<RectF>,
    pub baseline_gap: Option<Pt>,
    pub mcid: Option<i32>,
    pub font_name: String,
    pub font_size: Pt,
    pub font_weight: i32,
    pub font_height: Pt,
    pub font_ascent: Pt,
    pub font_descent: Pt,
    pub font_is_buggy: bool,
    /// Whether the last glyph is a space that stands in no content stream.
    pub trailing_space_generated: bool,
    pub fill_color: Option<u32>,
    pub stroke_color: Option<u32>,
}

// ── Characters and colours ─────────────────────────────────────────────

/// Whether a code point is white space of the ASCII kind.
pub open spec fn c_space(unicode: u32) -> bool {
    9 <= unicode <= 13 || unicode == 32
}

/// Whether a code point is white space of the ASCII kind. Other kinds of white
/// space stay inside their items.
pub fn is_c_locale_space(unicode: u32) -> (r: bool)
    ensures
        r == c_space(unicode),
{
    (9 <= unicode && unicode <= 13) || unicode == 32
}

/// A colour as one number: opacity, red, green and blue, highest byte first.
pub open spec fn argb(c: Color) -> int {
    ((c.a * 256 + c.r) * 256 + c.g) * 256 + c.b
}

/// A colour as one number.
pub fn pack_argb(color: Color) -> (r: u32)
    ensures
        r == argb(color),
{
    ((color.a as u32 * 256 + color.r as u32) * 256 + color.g as u32) * 256 + color.b as u32
}

/// Whether a number is the code of a character.
pub open spec fn is_scalar(v: u32) -> bool {
    v < 0xd800 || 0xdfff < v <= 0x10ffff
}

/// The text of the first `n` code points, up to the first 0 among them.
pub open spec fn text_before_zero(codepoints: Seq<u32>, n: int) -> Seq<char>
    decreases n,
{
    if n <= 0 {
        seq![]
    } else {
        let before = text_before_zero(codepoints, n - 1);
        if exists|i: int| 0 <= i < n && codepoints[i] == 0 {
            before
        } else {
            before.push(codepoints[n - 1] as char)
        }
    }
}

/// The text of some code points: nothing at all where one of them is no
/// character, and otherwise the text up to the first 0.
pub open spec fn c_string(codepoints: Seq<u32>) -> Option<Seq<char>> {
    if forall|i: int| 0 <= i < codepoints.len() ==> is_scalar(#[trigger] codepoints[i]) {
        Some(text_before_zero(codepoints, codepoints.len() as int))
    } else {
        None
    }
}

/// The text of some code points.
pub fn c_string_from_utf32(codepoints: &Vec<u32>) -> (r: Option<String>)
    ensures
        match r {
            Some(s) => c_string(codepoints@) == Some(s@),
            None => c_string(codepoints@) is None,
        },
{
    let mut out = String::new();
    let mut ended = false;
    let mut i: usize = 0;
    while i < codepoints.len()
        invariant
            i <= codepoints@.len(),
            forall|j: int| 0 <= j < i ==> is_scalar(#[trigger] codepoints@[j]),
            ended == exists|j: int| 0 <= j < i && codepoints@[j] == 0,
            out@ == text_before_zero(codepoints@, i as int),
        decreases codepoints@.len() - i,
    {
        match char::from_u32(codepoints[i]) {
            Some(c) => {
                let zero = codepoints[i] == 0;
                proof {
                    let n = i + 1;
                    if ended {
                        let j = choose|j: int| 0 <= j < i && codepoints@[j] == 0;
                        assert(0 <= j < n && codepoints@[j] == 0);
                    }
                    if zero {
                        assert(codepoints@[i as int] == 0);
                    }
                }
                ended = ended || zero;
                if !ended {
                    out.push(c);
                }
            },
            None => {
                assert(!is_scalar(codepoints@[i as int]));
                return None;
            },
        }
        i += 1;
    }
    Some(out)
}

/// The text ends at the first 0, which is not part of it.
pub proof fn text_ends_at_first_zero(codepoints: Seq<u32>, z: int)
    requires
        0 <= z < codepoints.len(),
        codepoints[z] == 0,
        forall|i: int| 0 <= i < z ==> codepoints[i] != 0,
        forall|i: int| 0 <= i < codepoints.len() ==> is_scalar(#[trigger] codepoints[i]),
    ensures
        c_string(codepoints) is Some,
        c_string(codepoints)->0.len() == z,
        forall|i: int| 0 <= i < z ==> c_string(codepoints)->0[i] as u32 == #[trigger] codepoints[i],
{
    lemma_text_prefix(codepoints, z);
    lemma_text_stops(codepoints, z, codepoints.len() as int);
}

proof fn lemma_text_prefix(codepoints: Seq<u32>, n: int)
    requires
        0 <= n <= codepoints.len(),
        forall|i: int| 0 <= i < n ==> codepoints[i] != 0,
        forall|i: int| 0 <= i < codepoints.len() ==> is_scalar(#[trigger] codepoints[i]),
    ensures
        text_before_zero(codepoints, n).len() == n,
        forall|i: int|
            0 <= i < n ==> text_before_zero(codepoints, n)[i] as u32 == #[trigger] codepoints[i],
    decreases n,
{
    if n > 0 {
        lemma_text_prefix(codepoints, n - 1);
        assert(is_scalar(codepoints[n - 1]));
    }
}

proof fn lemma_text_stops(codepoints: Seq<u32>, z: int, n: int)
    requires
        0 <= z < n <= codepoints.len(),
        codepoints[z] == 0,
    ensures
        text_before_zero(codepoints, n) == text_before_zero(codepoints, z),
    decreases n,
{
    if n > z + 1 {
        lemma_text_stops(codepoints, z, n - 1);
    }
}

// ── Segmentation ───────────────────────────────────────────────────────

/// Whether a glyph ends the item that it belongs to.
pub open spec fn closes(g: Glyph) -> bool {
    g.generated || c_space(g.unicode)
}

/// Whether a glyph ends an item and belongs to none.
pub open spec fn line_end(g: Glyph) -> bool {
    g.generated && (g.unicode == 10 || g.unicode == 13)
}

/// Whether a glyph cannot belong to an item that starts with `first`: it
/// belongs to another text object, or its angle differs by more than a
/// hundredth of a radian.
pub open spec fn breaks(first: Glyph, g: Glyph) -> bool {
    first.text_object != g.text_object || first.angle - g.angle > 10_000 || g.angle - first.angle
        > 10_000
}

/// The runs that were found among some glyphs, and where the open one starts.
pub struct Runs {
    pub done: Seq<(int, int)>,
    pub open: int,
}

/// A run closed before `n`, where one is open.
pub open spec fn closed_at(r: Runs, n: int) -> Runs {
    if r.open < n {
        Runs { done: r.done.push((r.open, n)), open: n }
    } else {
        Runs { done: r.done, open: n }
    }
}

/// The runs among the first `n` glyphs.
pub open spec fn runs_upto(glyphs: Seq<Glyph>, n: int) -> Runs
    decreases n,
{
    if n <= 0 {
        Runs { done: seq![], open: 0 }
    } else {
        let i = n - 1;
        let r = runs_upto(glyphs, i);
        let g = glyphs[i];
        let s = if r.open < i && breaks(glyphs[r.open], g) {
            closed_at(r, i)
        } else {
            r
        };
        if line_end(g) {
            Runs { open: n, ..closed_at(s, i) }
        } else if closes(g) {
            closed_at(s, n)
        } else {
            s
        }
    }
}

/// The runs of a page's glyphs, as ranges of glyph positions.
pub open spec fn runs_of(glyphs: Seq<Glyph>) -> Seq<(int, int)> {
    closed_at(runs_upto(glyphs, glyphs.len() as int), glyphs.len() as int).done
}

/// The contents of a list of ranges.
pub open spec fn range_views(r: Seq<(usize, usize)>) -> Seq<(int, int)> {
    r.map_values(|p: (usize, usize)| (p.0 as int, p.1 as int))
}

fn breaks_from(first: &Glyph, g: &Glyph) -> (r: bool)
    ensures
        r == breaks(*first, *g),
{
    let d: i128 = first.angle as i128 - g.angle as i128;
    let same = match (first.text_object, g.text_object) {
        (Some(a), Some(b)) => a == b,
        (None, None) => true,
        _ => false,
    };
    !same || d > 10_000 || d < -10_000
}

/// The runs of a page's glyphs, as ranges of glyph positions.
pub fn segment_runs(glyphs: &Vec<Glyph>) -> (r: Vec<(usize, usize)>)
    ensures
        range_views(r@) == runs_of(glyphs@),
{
    let mut done: Vec<(usize, usize)> = Vec::new();
    let mut open: usize = 0;
    let mut i: usize = 0;
    proof {
        lemma_runs_bound(glyphs@, 0);
    }
    assert(range_views(done@) =~= runs_upto(glyphs@, 0).done);
    while i < glyphs.len()
        invariant
            i <= glyphs@.len(),
            open <= i,
            range_views(done@) == runs_upto(glyphs@, i as int).done,
            open == runs_upto(glyphs@, i as int).open,
        decreases glyphs@.len() - i,
    {
        let ghost before = done@;
        let ghost state = runs_upto(glyphs@, i as int);
        let g = glyphs[i];
        if open < i && breaks_from(&glyphs[open], &g) {
            done.push((open, i));
            open = i;
            assert(range_views(done@) =~= state.done.push((state.open, i as int)));
        }
        let ghost mid = done@;
        if g.generated && (g.unicode == 10 || g.unicode == 13) {
            if open < i {
                done.push((open, i));
                assert(range_views(done@) =~= range_views(mid).push((open as int, i as int)));
            }
            open = i + 1;
        } else if g.generated || is_c_locale_space(g.unicode) {
            done.push((open, i + 1));
            assert(range_views(done@) =~= range_views(mid).push((open as int, i + 1)));
            open = i + 1;
        }
        i += 1;
    }
    let ghost last = done@;
    if open < i {
        done.push((open, i));
        assert(range_views(done@) =~= range_views(last).push((open as int, i as int)));
    }
    done
}

proof fn lemma_runs_bound(glyphs: Seq<Glyph>, n: int)
    requires
        0 <= n <= glyphs.len(),
    ensures
        0 <= runs_upto(glyphs, n).open <= n,
    decreases n,
{
    if n > 0 {
        lemma_runs_bound(glyphs, n - 1);
    }
}

/// Whether `(a, b)` can be the range of one item: it is not empty, all of its
/// glyphs can stand with its first one, none of them is a line end, and only
/// its last one may end an item.
pub open spec fn run_ok(glyphs: Seq<Glyph>, a: int, b: int) -> bool {
    &&& 0 <= a < b <= glyphs.len()
    &&& forall|i: int| a <= i < b ==> !breaks(glyphs[a], #[trigger] glyphs[i]) && !line_end(glyphs[i])
    &&& forall|i: int| a <= i < b - 1 ==> !closes(#[trigger] glyphs[i])
}

/// Whether a run holds the `i`th glyph.
pub open spec fn held(runs: Seq<(int, int)>, i: int) -> bool {
    exists|k: int| 0 <= k < runs.len() && (#[trigger] runs[k]).0 <= i < runs[k].1
}

proof fn lemma_held_push(runs: Seq<(int, int)>, r: (int, int), i: int)
    ensures
        held(runs.push(r), i) <==> held(runs, i) || r.0 <= i < r.1,
{
    let all = runs.push(r);
    if held(runs, i) {
        let k = choose|k: int| 0 <= k < runs.len() && (#[trigger] runs[k]).0 <= i < runs[k].1;
        assert(all[k] == runs[k]);
    }
    if r.0 <= i < r.1 {
        assert(all[runs.len() as int] == r);
    }
    if held(all, i) {
        let k = choose|k: int| 0 <= k < all.len() && (#[trigger] all[k]).0 <= i < all[k].1;
        if k < runs.len() {
            assert(all[k] == runs[k]);
        }
    }
}

spec fn part_ok(glyphs: Seq<Glyph>, r: Runs, n: int) -> bool {
    &&& 0 <= r.open <= n
    &&& forall|k: int| 0 <= k < r.done.len() ==> run_ok(
        glyphs,
        (#[trigger] r.done[k]).0,
        r.done[k].1,
    ) && r.done[k].1 <= r.open
    &&& forall|k: int, l: int|
        0 <= k < l < r.done.len() ==> (#[trigger] r.done[k]).1 <= (#[trigger] r.done[l]).0
    &&& forall|i: int| 0 <= i < r.open ==> (held(r.done, i) <==> !line_end(#[trigger] glyphs[i]))
}

spec fn upto_ok(glyphs: Seq<Glyph>, n: int) -> bool {
    let r = runs_upto(glyphs, n);
    &&& part_ok(glyphs, r, n)
    &&& forall|i: int|
        r.open <= i < n ==> !breaks(glyphs[r.open], #[trigger] glyphs[i]) && !closes(glyphs[i])
}

proof fn lemma_close(glyphs: Seq<Glyph>, r: Runs, n: int)
    requires
        n <= glyphs.len(),
        part_ok(glyphs, r, n),
        r.open < n ==> run_ok(glyphs, r.open, n),
    ensures
        part_ok(glyphs, closed_at(r, n), n),
{
    let c = closed_at(r, n);
    if r.open < n {
        assert forall|k: int| 0 <= k < c.done.len() implies run_ok(
            glyphs,
            (#[trigger] c.done[k]).0,
            c.done[k].1,
        ) && c.done[k].1 <= c.open by {
            if k < r.done.len() {
                assert(c.done[k] == r.done[k]);
            }
        }
        assert forall|k: int, l: int| 0 <= k < l < c.done.len() implies (#[trigger] c.done[k]).1
            <= (#[trigger] c.done[l]).0 by {
            assert(c.done[k] == r.done[k]);
            if l < r.done.len() {
                assert(c.done[l] == r.done[l]);
            }
        }
        assert forall|i: int| 0 <= i < c.open implies (held(c.done, i) <==> !line_end(
            #[trigger] glyphs[i],
        )) by {
            lemma_held_push(r.done, (r.open, n), i);
            if i >= r.open {
                assert(!line_end(glyphs[i]));
            } else {
                assert(held(r.done, i) <==> !line_end(glyphs[i]));
            }
        }
    }
}

proof fn lemma_upto(glyphs: Seq<Glyph>, n: int)
    requires
        0 <= n <= glyphs.len(),
    ensures
        upto_ok(glyphs, n),
    decreases n,
{
    if n > 0 {
        let i = n - 1;
        lemma_upto(glyphs, i);
        let r = runs_upto(glyphs, i);
        let g = glyphs[i];
        assert(part_ok(glyphs, r, i));
        assert(r.open < i ==> run_ok(glyphs, r.open, i));
        let s = if r.open < i && breaks(glyphs[r.open], g) {
            closed_at(r, i)
        } else {
            r
        };
        lemma_close(glyphs, r, i);
        assert(part_ok(glyphs, s, i));
        if line_end(g) {
            assert(s.open < i ==> run_ok(glyphs, s.open, i));
            lemma_close(glyphs, s, i);
            let c = closed_at(s, i);
            let t = Runs { open: n, ..c };
            assert(t == runs_upto(glyphs, n));
            assert forall|j: int| 0 <= j < n implies (held(t.done, j) <==> !line_end(
                #[trigger] glyphs[j],
            )) by {
                if j == i {
                    if held(t.done, j) {
                        let k = choose|k: int|
                            0 <= k < t.done.len() && (#[trigger] t.done[k]).0 <= j < t.done[k].1;
                        assert(c.done[k].1 <= c.open);
                    }
                } else {
                    assert(held(c.done, j) <==> !line_end(glyphs[j]));
                }
            }
        } else if closes(g) {
            assert(run_ok(glyphs, s.open, n)) by {
                assert forall|j: int| s.open <= j < n implies !breaks(
                    glyphs[s.open],
                    #[trigger] glyphs[j],
                ) && !line_end(glyphs[j]) by {}
            }
            assert(part_ok(glyphs, s, n));
            lemma_close(glyphs, s, n);
        }
    }
}

/// Every glyph that is not a line end belongs to exactly one item, in page
/// order; a line end belongs to none. Every item is made of glyphs that can
/// stand together, and only its last glyph may end it.
pub proof fn runs_partition_glyphs(glyphs: Seq<Glyph>)
    ensures
        forall|k: int|
            0 <= k < runs_of(glyphs).len() ==> run_ok(
                glyphs,
                (#[trigger] runs_of(glyphs)[k]).0,
                runs_of(glyphs)[k].1,
            ),
        forall|k: int, l: int|
            0 <= k < l < runs_of(glyphs).len() ==> (#[trigger] runs_of(glyphs)[k]).1 <= (
            #[trigger] runs_of(glyphs)[l]).0,
        forall|i: int|
            0 <= i < glyphs.len() ==> (held(runs_of(glyphs), i) <==> !line_end(
                #[trigger] glyphs[i],
            )),
{
    let n = glyphs.len() as int;
    lemma_upto(glyphs, n);
    let r = runs_upto(glyphs, n);
    assert(part_ok(glyphs, r, n));
    assert(r.open < n ==> run_ok(glyphs, r.open, n));
    lemma_close(glyphs, r, n);
}

// ── Grounding boxes ────────────────────────────────────────────────────

/// Whether a glyph counts towards the tight box of its item: it is a real one,
/// no white space, and has an extent.
pub open spec fn grounds(g: Glyph, codepoint: u32) -> bool {
    !g.generated && codepoint != 0 && !c_space(codepoint) && g.strict.left.emu < g.strict.right.emu
        && g.strict.top.emu < g.strict.bottom.emu
}

/// How far along the baseline a point lies, in `2^-30` EMU.
pub open spec fn along(d: Direction, x: Pt, y: Pt) -> int {
    d.cos * x.emu + d.sin * y.emu
}

/// How far across the baseline a point lies, in `2^-30` EMU.
pub open spec fn across(d: Direction, x: Pt, y: Pt) -> int {
    d.cos * y.emu - d.sin * x.emu
}

/// The least and the greatest of four numbers.
pub open spec fn span4(a: int, b: int, c: int, e: int) -> (int, int) {
    let lo1 = if a < b {
        a
    } else {
        b
    };
    let lo2 = if c < e {
        c
    } else {
        e
    };
    let hi1 = if a < b {
        b
    } else {
        a
    };
    let hi2 = if c < e {
        e
    } else {
        c
    };
    (
        if lo1 < lo2 {
            lo1
        } else {
            lo2
        },
        if hi1 < hi2 {
            hi2
        } else {
            hi1
        },
    )
}

/// How far a box reaches along and across the baseline.
pub struct Reach {
    pub min_along: int,
    pub max_along: int,
    pub min_across: int,
    pub max_across: int,
}

/// How far the four corners of a box reach.
pub open spec fn reach_of(b: RectF, d: Direction) -> Reach {
    let (a0, a1) = span4(
        along(d, b.left, b.top),
        along(d, b.right, b.top),
        along(d, b.left, b.bottom),
        along(d, b.right, b.bottom),
    );
    let (c0, c1) = span4(
        across(d, b.left, b.top),
        across(d, b.right, b.top),
        across(d, b.left, b.bottom),
        across(d, b.right, b.bottom),
    );
    Reach { min_along: a0, max_along: a1, min_across: c0, max_across: c1 }
}

/// How far two boxes reach together.
pub open spec fn joined_reach(a: Reach, b: Reach) -> Reach {
    Reach {
        min_along: if b.min_along < a.min_along {
            b.min_along
        } else {
            a.min_along
        },
        max_along: if b.max_along > a.max_along {
            b.max_along
        } else {
            a.max_along
        },
        min_across: if b.min_across < a.min_across {
            b.min_across
        } else {
            a.min_across
        },
        max_across: if b.max_across > a.max_across {
            b.max_across
        } else {
            a.max_across
        },
    }
}

/// How far those of the first `n` glyphs reach that count.
pub open spec fn reach_upto(
    glyphs: Seq<Glyph>,
    codepoints: Seq<u32>,
    d: Direction,
    n: int,
) -> Option<Reach>
    decreases n,
{
    if n <= 0 {
        None
    } else {
        let before = reach_upto(glyphs, codepoints, d, n - 1);
        if grounds(glyphs[n - 1], codepoints[n - 1]) {
            let r = reach_of(glyphs[n - 1].strict, d);
            match before {
                Some(b) => Some(joined_reach(b, r)),
                None => Some(r),
            }
        } else {
            before
        }
    }
}

/// `v / 2^61`, to the nearest whole number, halves upwards.
pub open spec fn round_q61(v: int) -> int {
    (v + 0x1000_0000_0000_0000) / 0x2000_0000_0000_0000
}

/// The box whose centre is that of what is reached, and whose sides are how
/// far it reaches: turned about its centre, it covers just that.
pub open spec fn centred_box(r: Reach, d: Direction) -> RectF {
    let a = r.min_along + r.max_along;
    let b = r.min_across + r.max_across;
    let cx = d.cos * a - d.sin * b;
    let cy = d.sin * a + d.cos * b;
    let w = 1073741824 * (r.max_along - r.min_along);
    let h = 1073741824 * (r.max_across - r.min_across);
    RectF {
        left: units::pt(round_q61(cx - w)),
        top: units::pt(round_q61(cy - h)),
        right: units::pt(round_q61(cx + w)),
        bottom: units::pt(round_q61(cy + h)),
    }
}

/// The tight box of an item's real glyphs, in contracts.
pub open spec fn tight_box(
    glyphs: Seq<Glyph>,
    codepoints: Seq<u32>,
    d: Direction,
) -> Option<RectF> {
    match reach_upto(glyphs, codepoints, d, glyphs.len() as int) {
        Some(r) => Some(centred_box(r, d)),
        None => None,
    }
}

#[derive(Clone, Copy, Debug)]
struct ExecReach {
    min_along: i128,
    max_along: i128,
    min_across: i128,
    max_across: i128,
}

impl ExecReach {
    spec fn seen(self) -> Reach {
        Reach {
            min_along: self.min_along as int,
            max_along: self.max_along as int,
            min_across: self.min_across as int,
            max_across: self.max_across as int,
        }
    }

    spec fn ok(self) -> bool {
        &&& small(self.min_along as int)
        &&& small(self.max_along as int)
        &&& small(self.min_across as int)
        &&& small(self.max_across as int)
        &&& self.min_along <= self.max_along
        &&& self.min_across <= self.max_across
    }
}

/// Whether a projection lies in its range.
spec fn small(v: int) -> bool {
    -0x4000_0000_0000_0000_0000_0000 <= v <= 0x4000_0000_0000_0000_0000_0000
}

fn times(f: i64, v: i64) -> (r: i128)
    requires
        -units::DIRECTION_ONE <= f <= units::DIRECTION_ONE,
    ensures
        r == f * v,
        -0x2000_0000_0000_0000_0000_0000 <= r <= 0x2000_0000_0000_0000_0000_0000,
{
    assert(-0x2000_0000_0000_0000_0000_0000 <= f * v <= 0x2000_0000_0000_0000_0000_0000)
        by (nonlinear_arith)
        requires
            -1073741824 <= f <= 1073741824,
            -0x8000_0000_0000_0000 <= v <= 0x7fff_ffff_ffff_ffff,
    ;
    (f as i128) * (v as i128)
}

fn along_of(d: Direction, x: Pt, y: Pt) -> (r: i128)
    requires
        d.ok(),
    ensures
        r == along(d, x, y),
        small(r as int),
{
    times(d.cos, x.emu) + times(d.sin, y.emu)
}

fn across_of(d: Direction, x: Pt, y: Pt) -> (r: i128)
    requires
        d.ok(),
    ensures
        r == across(d, x, y),
        small(r as int),
{
    times(d.cos, y.emu) - times(d.sin, x.emu)
}

fn span4_of(a: i128, b: i128, c: i128, e: i128) -> (r: (i128, i128))
    ensures
        (r.0 as int, r.1 as int) == span4(a as int, b as int, c as int, e as int),
        r.0 <= r.1,
        r.0 == a || r.0 == b || r.0 == c || r.0 == e,
        r.1 == a || r.1 == b || r.1 == c || r.1 == e,
{
    let (lo1, hi1) = if a < b {
        (a, b)
    } else {
        (b, a)
    };
    let (lo2, hi2) = if c < e {
        (c, e)
    } else {
        (e, c)
    };
    let lo: i128 = if lo1 < lo2 {
        lo1
    } else {
        lo2
    };
    let hi: i128 = if hi1 < hi2 {
        hi2
    } else {
        hi1
    };
    (lo, hi)
}

fn reach(b: &RectF, d: Direction) -> (r: ExecReach)
    requires
        d.ok(),
    ensures
        r.seen() == reach_of(*b, d),
        r.ok(),
{
    let (a0, a1) = span4_of(
        along_of(d, b.left, b.top),
        along_of(d, b.right, b.top),
        along_of(d, b.left, b.bottom),
        along_of(d, b.right, b.bottom),
    );
    let (c0, c1) = span4_of(
        across_of(d, b.left, b.top),
        across_of(d, b.right, b.top),
        across_of(d, b.left, b.bottom),
        across_of(d, b.right, b.bottom),
    );
    ExecReach { min_along: a0, max_along: a1, min_across: c0, max_across: c1 }
}

fn round_61(v: i128) -> (r: i128)
    requires
        -0x6000_0000_0000_0000_0000_0000_0000_0000 <= v <= 0x6000_0000_0000_0000_0000_0000_0000_0000,
    ensures
        r == round_q61(v as int),
{
    let w: i128 = v + 0x1000_0000_0000_0000;
    if w >= 0 {
        w / 0x2000_0000_0000_0000
    } else {
        let m: i128 = -w;
        let q: i128 = m / 0x2000_0000_0000_0000;
        let rest: i128 = m % 0x2000_0000_0000_0000;
        if rest == 0 {
            -q
        } else {
            -q - 1
        }
    }
}

fn times_wide(f: i64, v: i128) -> (r: i128)
    requires
        -units::DIRECTION_ONE <= f <= units::DIRECTION_ONE,
        -0x8000_0000_0000_0000_0000_0000 <= v <= 0x8000_0000_0000_0000_0000_0000,
    ensures
        r == f * v,
        -0x2000_0000_0000_0000_0000_0000_0000_0000 <= r <= 0x2000_0000_0000_0000_0000_0000_0000_0000,
{
    assert(-0x2000_0000_0000_0000_0000_0000_0000_0000 <= f * v
        <= 0x2000_0000_0000_0000_0000_0000_0000_0000) by (nonlinear_arith)
        requires
            -1073741824 <= f <= 1073741824,
            -0x8000_0000_0000_0000_0000_0000 <= v <= 0x8000_0000_0000_0000_0000_0000,
    ;
    (f as i128) * v
}

fn box_of(r: &ExecReach, d: Direction) -> (b: RectF)
    requires
        d.ok(),
        r.ok(),
    ensures
        b == centred_box(r.seen(), d),
{
    let a: i128 = r.min_along + r.max_along;
    let c: i128 = r.min_across + r.max_across;
    let cx: i128 = times_wide(d.cos, a) - times_wide(d.sin, c);
    let cy: i128 = times_wide(d.sin, a) + times_wide(d.cos, c);
    let w: i128 = 1073741824 * (r.max_along - r.min_along);
    let h: i128 = 1073741824 * (r.max_across - r.min_across);
    RectF {
        left: Pt { emu: units::saturate(round_61(cx - w)) },
        top: Pt { emu: units::saturate(round_61(cy - h)) },
        right: Pt { emu: units::saturate(round_61(cx + w)) },
        bottom: Pt { emu: units::saturate(round_61(cy + h)) },
    }
}

/// The tight box of an item's real glyphs: their tight boxes, measured along
/// and across the baseline. `codepoints` are what the glyphs stand for in the
/// end, so a glyph that turned out to be a space does not count.
pub fn grounding_bounds(
    glyphs: &Vec<Glyph>,
    start: usize,
    end: usize,
    codepoints: &Vec<u32>,
    d: Direction,
) -> (r: Option<RectF>)
    requires
        d.ok(),
        start <= end <= glyphs@.len(),
        codepoints@.len() == end - start,
    ensures
        r == tight_box(glyphs@.subrange(start as int, end as int), codepoints@, d),
{
    let ghost run = glyphs@.subrange(start as int, end as int);
    let mut found: Option<ExecReach> = None;
    let mut i: usize = start;
    while i < end
        invariant
            d.ok(),
            start <= i <= end <= glyphs@.len(),
            codepoints@.len() == end - start,
            run == glyphs@.subrange(start as int, end as int),
            match found {
                Some(r) => reach_upto(run, codepoints@, d, i - start) == Some(r.seen()) && r.ok(),
                None => reach_upto(run, codepoints@, d, i - start) is None,
            },
        decreases end - i,
    {
        let g = glyphs[i];
        let c: u32 = codepoints[i - start];
        assert(run[i - start] == g);
        if !g.generated && c != 0 && !is_c_locale_space(c) && g.strict.left.emu < g.strict.right.emu
            && g.strict.top.emu < g.strict.bottom.emu {
            let r = reach(&g.strict, d);
            found = match found {
                Some(b) => Some(
                    ExecReach {
                        min_along: if r.min_along < b.min_along {
                            r.min_along
                        } else {
                            b.min_along
                        },
                        max_along: if r.max_along > b.max_along {
                            r.max_along
                        } else {
                            b.max_along
                        },
                        min_across: if r.min_across < b.min_across {
                            r.min_across
                        } else {
                            b.min_across
                        },
                        max_across: if r.max_across > b.max_across {
                            r.max_across
                        } else {
                            b.max_across
                        },
                    },
                ),
                None => Some(r),
            };
        }
        i += 1;
    }
    match found {
        Some(r) => Some(box_of(&r, d)),
        None => None,
    }
}

proof fn lemma_scaled_span(a: int, b: int)
    requires
        a < b,
    ensures
        span4(1073741824 * a, 1073741824 * b, 1073741824 * a, 1073741824 * b) == (
            1073741824 * a,
            1073741824 * b,
        ),
        span4(1073741824 * a, 1073741824 * a, 1073741824 * b, 1073741824 * b) == (
            1073741824 * a,
            1073741824 * b,
        ),
{
}

proof fn lemma_scaled_edges(a: int, b: int)
    ensures
        round_q61(
            1073741824 * (1073741824 * a + 1073741824 * b) - 1073741824 * (1073741824 * b - 1073741824
                * a),
        ) == a,
        round_q61(
            1073741824 * (1073741824 * a + 1073741824 * b) + 1073741824 * (1073741824 * b - 1073741824
                * a),
        ) == b,
{
}

/// On a level baseline the tight box of a single glyph is its own tight box.
pub proof fn level_glyph_keeps_its_box(g: Glyph, codepoint: u32)
    requires
        grounds(g, codepoint),
    ensures
        tight_box(
            seq![g],
            seq![codepoint],
            (Direction { sin: 0, cos: units::DIRECTION_ONE }),
        ) == Some(g.strict),
{
    let d = Direction { sin: 0, cos: units::DIRECTION_ONE };
    let b = g.strict;
    let glyphs = seq![g];
    let codes = seq![codepoint];
    assert(reach_upto(glyphs, codes, d, 0) is None);
    assert(reach_upto(glyphs, codes, d, 1) == Some(reach_of(b, d)));
    let r = reach_of(b, d);
    let l = b.left.emu as int;
    let t = b.top.emu as int;
    let rt = b.right.emu as int;
    let bt = b.bottom.emu as int;
    assert(l < rt);
    assert(t < bt);
    assert(d.sin * b.top.emu == 0 && d.sin * b.bottom.emu == 0 && d.sin * b.left.emu == 0 && d.sin
        * b.right.emu == 0) by (nonlinear_arith)
        requires
            d.sin == 0,
    ;
    assert(d.cos * b.left.emu == 1073741824 * l && d.cos * b.right.emu == 1073741824 * rt && d.cos
        * b.top.emu == 1073741824 * t && d.cos * b.bottom.emu == 1073741824 * bt)
        by (nonlinear_arith)
        requires
            d.cos == 1073741824,
            l == b.left.emu,
            rt == b.right.emu,
            t == b.top.emu,
            bt == b.bottom.emu,
    ;
    assert(along(d, b.left, b.top) == 1073741824 * l);
    assert(along(d, b.left, b.bottom) == 1073741824 * l);
    assert(along(d, b.right, b.top) == 1073741824 * rt);
    assert(along(d, b.right, b.bottom) == 1073741824 * rt);
    lemma_scaled_span(l, rt);
    lemma_scaled_span(t, bt);
    assert(r.min_along == 1073741824 * l && r.max_along == 1073741824 * rt);
    assert(r.min_across == 1073741824 * t && r.max_across == 1073741824 * bt);
    let a = r.min_along + r.max_along;
    let c = r.min_across + r.max_across;
    assert(d.cos * a - d.sin * c == 1073741824 * a) by (nonlinear_arith)
        requires
            d.cos == 1073741824,
            d.sin == 0,
    ;
    assert(d.sin * a + d.cos * c == 1073741824 * c) by (nonlinear_arith)
        requires
            d.cos == 1073741824,
            d.sin == 0,
    ;
    lemma_scaled_edges(l, rt);
    lemma_scaled_edges(t, bt);
    assert(centred_box(r, d) == b);
}

// ── Reading a glyph ────────────────────────────────────────────────────

/// What a page says of a glyph.
#[derive(Debug)]
pub struct GlyphReading {
    pub text_object: Option<usize>,
    pub generated: bool,
    pub char_code: u32,
    pub unicode: u32,
    /// Whether the code has no code point.
    pub unmapped: bool,
    /// Its boxes, on the page as it is viewed.
    pub strict: Option<RectF>,
    pub loose: Option<RectF>,
    /// In millionths of a radian.
    pub angle: i64,
}

/// The glyph of a reading, in contracts.
pub open spec fn glyph_of(r: GlyphReading, blank: RectF) -> Glyph {
    let strict = match r.strict {
        Some(b) => b,
        None => blank,
    };
    Glyph {
        text_object: r.text_object,
        generated: r.generated,
        char_code: if r.generated {
            0
        } else {
            r.char_code
        },
        unicode: if r.unmapped {
            0
        } else {
            r.unicode
        },
        loose: match r.loose {
            Some(b) => b,
            None => strict,
        },
        strict,
        angle: r.angle,
    }
}

/// The glyph of a reading. One whose loose box cannot be read has its tight box
/// in its place, and one without a tight box has `blank`.
pub fn load_glyph(r: &GlyphReading, blank: RectF) -> (g: Glyph)
    ensures
        g == glyph_of(*r, blank),
{
    let strict = match r.strict {
        Some(b) => b,
        None => blank,
    };
    let loose = match r.loose {
        Some(b) => b,
        None => strict,
    };
    Glyph {
        text_object: r.text_object,
        generated: r.generated,
        char_code: if r.generated {
            0
        } else {
            r.char_code
        },
        unicode: if r.unmapped {
            0
        } else {
            r.unicode
        },
        loose,
        strict,
        angle: r.angle,
    }
}

// ── Fonts that cannot be trusted ───────────────────────────────────────

/// The font that an item which starts with `g` is set in.
pub open spec fn font_of(g: Glyph, f: GlyphFacts) -> Option<ItemFont> {
    if g.text_object is Some {
        f.font
    } else {
        None
    }
}

/// Whether the decoded text of the run from `a` to `b` is not to be trusted:
/// its font is an embedded subset with made-up codes, or a real glyph decodes
/// to a control or private-use code point.
pub open spec fn buggy(glyphs: Seq<Glyph>, facts: Seq<GlyphFacts>, a: int, b: int) -> bool {
    match font_of(glyphs[a], facts[a]) {
        Some(font) => {
            ||| font.embedded && font.suspect_name
            ||| exists|i: int| a <= i < b && !(#[trigger] glyphs[i]).generated && facts[i].suspect
        },
        None => false,
    }
}

/// What a glyph stands for once it has been recognised again.
pub open spec fn recovered(g: Glyph, f: GlyphFacts, type3: bool) -> u32 {
    if g.generated {
        g.unicode
    } else if type3 && f.named is Some {
        f.named->0
    } else {
        match f.recognised {
            Some(c) => c,
            None => 32,
        }
    }
}

/// Whether the glyphs of a run are recognised again.
pub open spec fn recovers(
    glyphs: Seq<Glyph>,
    facts: Seq<GlyphFacts>,
    a: int,
    b: int,
    resolving: bool,
) -> bool {
    resolving && buggy(glyphs, facts, a, b)
}

/// What the glyphs of a run stand for in the end.
pub open spec fn final_codes(
    glyphs: Seq<Glyph>,
    facts: Seq<GlyphFacts>,
    a: int,
    b: int,
    resolving: bool,
) -> Seq<u32> {
    Seq::new(
        (b - a) as nat,
        |i: int|
            if recovers(glyphs, facts, a, b, resolving) {
                recovered(
                    glyphs[a + i],
                    facts[a + i],
                    facts[a].font->0.font_type == FontType::Type3,
                )
            } else {
                glyphs[a + i].unicode
            },
    )
}

fn is_buggy(glyphs: &Vec<Glyph>, facts: &Vec<GlyphFacts>, a: usize, b: usize) -> (r: bool)
    requires
        a < b <= glyphs@.len(),
        facts@.len() == glyphs@.len(),
    ensures
        r == buggy(glyphs@, facts@, a as int, b as int),
{
    if glyphs[a].text_object.is_none() {
        return false;
    }
    match &facts[a].font {
        Some(font) => {
            if font.embedded && font.suspect_name {
                return true;
            }
        },
        None => {
            return false;
        },
    }
    let mut i: usize = a;
    while i < b
        invariant
            a <= i <= b <= glyphs@.len(),
            facts@.len() == glyphs@.len(),
            font_of(glyphs@[a as int], facts@[a as int]) is Some,
            forall|j: int| a <= j < i ==> (#[trigger] glyphs@[j]).generated || !facts@[j].suspect,
        decreases b - i,
    {
        if !glyphs[i].generated && facts[i].suspect {
            return true;
        }
        i += 1;
    }
    false
}

fn codes_of(
    glyphs: &Vec<Glyph>,
    facts: &Vec<GlyphFacts>,
    a: usize,
    b: usize,
    buggy_item: bool,
    resolving: bool,
) -> (r: Vec<u32>)
    requires
        a < b <= glyphs@.len(),
        facts@.len() == glyphs@.len(),
        buggy_item == buggy(glyphs@, facts@, a as int, b as int),
    ensures
        r@ == final_codes(glyphs@, facts@, a as int, b as int, resolving),
{
    let recover = resolving && buggy_item;
    let type3 = match &facts[a].font {
        Some(font) => match font.font_type {
            FontType::Type3 => true,
            _ => false,
        },
        None => false,
    };
    let mut out: Vec<u32> = Vec::new();
    let mut i: usize = a;
    while i < b
        invariant
            a <= i <= b <= glyphs@.len(),
            facts@.len() == glyphs@.len(),
            recover == recovers(glyphs@, facts@, a as int, b as int, resolving),
            recover ==> type3 == (facts@[a as int].font->0.font_type == FontType::Type3),
            out@ == final_codes(glyphs@, facts@, a as int, b as int, resolving).take(i - a),
        decreases b - i,
    {
        let g = glyphs[i];
        let c: u32 = if !recover || g.generated {
            g.unicode
        } else {
            let own: Option<u32> = if type3 {
                facts[i].named
            } else {
                None
            };
            match own {
                Some(c) => c,
                None => match facts[i].recognised {
                    Some(c) => c,
                    None => 32,
                },
            }
        };
        assert(c == final_codes(glyphs@, facts@, a as int, b as int, resolving)[i - a]);
        out.push(c);
        i += 1;
        assert(out@ =~= final_codes(glyphs@, facts@, a as int, b as int, resolving).take(i - a));
    }
    assert(out@ =~= final_codes(glyphs@, facts@, a as int, b as int, resolving));
    out
}

// ── Gaps ───────────────────────────────────────────────────────────────

/// Whether the advances of a font describe a level baseline.
pub open spec fn level_font(font_type: FontType, encoding: Option<String>) -> bool {
    match font_type {
        FontType::Type1 | FontType::TrueType => true,
        FontType::CidType0 | FontType::CidType2 => encoding matches Some(e) && e@ == "Identity-H"@,
        _ => false,
    }
}

/// Whether a glyph can stand next to a gap that is measured: it is a real one,
/// no white space, in a font with a level baseline, with a direction and a
/// place.
pub open spec fn gap_neighbour(g: Glyph, f: GlyphFacts) -> bool {
    &&& !g.generated
    &&& f.gap.unicode != 0
    &&& !c_space(f.gap.unicode)
    &&& font_of(g, f) matches Some(font) && level_font(font.font_type, f.gap.encoding)
    &&& f.gap.baseline is Some
    &&& f.gap.origin is Some
}

/// Whether two directions agree, up to a millionth.
pub open spec fn same_direction(a: Direction, b: Direction) -> bool {
    &&& -1073 <= a.cos - b.cos <= 1073
    &&& -1073 <= a.sin - b.sin <= 1073
}

/// How far `n` lies from `p` along a direction, in `2^-30` EMU.
pub open spec fn displacement(d: Direction, p: (Pt, Pt), n: (Pt, Pt)) -> int {
    d.cos * (n.0.emu - p.0.emu) + d.sin * (n.1.emu - p.1.emu)
}

/// The gap across the glyph at `k`: how far the next glyph lies from the
/// previous one along the baseline, less what the previous one advances.
pub open spec fn gap_at(glyphs: Seq<Glyph>, facts: Seq<GlyphFacts>, k: int) -> Option<Pt> {
    if 0 < k && k + 1 < glyphs.len() {
        let (p, n) = (facts[k - 1].gap, facts[k + 1].gap);
        if gap_neighbour(glyphs[k - 1], facts[k - 1]) && gap_neighbour(
            glyphs[k + 1],
            facts[k + 1],
        ) && same_direction(p.baseline->0, n.baseline->0) && p.advance is Some && displacement(
            p.baseline->0,
            p.origin->0,
            n.origin->0,
        ) >= 0 {
            Some(
                units::pt(
                    units::round_half_q30(
                        2 * displacement(p.baseline->0, p.origin->0, n.origin->0),
                    ) - p.advance->0.emu,
                ),
            )
        } else {
            None
        }
    } else {
        None
    }
}

fn has_level_font(font_type: FontType, encoding: &Option<String>) -> (r: bool)
    ensures
        r == level_font(font_type, *encoding),
{
    match font_type {
        FontType::Type1 | FontType::TrueType => true,
        FontType::CidType0 | FontType::CidType2 => match encoding {
            Some(e) => *e == "Identity-H".to_string(),
            None => false,
        },
        _ => false,
    }
}

/// The direction, the place and the advance of a glyph that can stand next to a
/// gap that is measured.
fn read_neighbour(g: &Glyph, f: &GlyphFacts) -> (r: Option<(Direction, (Pt, Pt), Option<Pt>)>)
    ensures
        match r {
            Some(v) => gap_neighbour(*g, *f) && f.gap.baseline == Some(v.0) && f.gap.origin == Some(
                v.1,
            ) && f.gap.advance == v.2,
            None => !gap_neighbour(*g, *f),
        },
{
    if g.generated || f.gap.unicode == 0 || is_c_locale_space(f.gap.unicode)
        || g.text_object.is_none() {
        return None;
    }
    match &f.font {
        Some(font) => if !has_level_font(font.font_type, &f.gap.encoding) {
            return None;
        },
        None => {
            return None;
        },
    }
    match (f.gap.baseline, f.gap.origin) {
        (Some(d), Some(o)) => Some((d, o, f.gap.advance)),
        _ => None,
    }
}

/// The gap across the glyph at `k`. There is none where a neighbour is missing
/// or cannot be measured, where the two run in different directions, or where
/// the next one lies behind the previous one; it is negative where they overlap.
pub fn measure_baseline_gap(glyphs: &Vec<Glyph>, facts: &Vec<GlyphFacts>, k: usize) -> (r: Option<
    Pt,
>)
    requires
        k < glyphs@.len(),
        facts@.len() == glyphs@.len(),
        forall|i: int| 0 <= i < facts@.len() ==> (#[trigger] facts@[i]).ok(),
    ensures
        r == gap_at(glyphs@, facts@, k as int),
{
    if k == 0 || k >= glyphs.len() - 1 {
        return None;
    }
    let (p, n) = match (
        read_neighbour(&glyphs[k - 1], &facts[k - 1]),
        read_neighbour(&glyphs[k + 1], &facts[k + 1]),
    ) {
        (Some(p), Some(n)) => (p, n),
        _ => {
            return None;
        },
    };
    assert(facts@[k - 1].ok() && facts@[k + 1].ok());
    let dc: i64 = p.0.cos - n.0.cos;
    let ds: i64 = p.0.sin - n.0.sin;
    if dc > 1073 || dc < -1073 || ds > 1073 || ds < -1073 {
        return None;
    }
    let advance = match p.2 {
        Some(w) => w,
        None => {
            return None;
        },
    };
    let dx: i128 = (n.1).0.emu as i128 - (p.1).0.emu as i128;
    let dy: i128 = (n.1).1.emu as i128 - (p.1).1.emu as i128;
    let moved: i128 = units::scaled(p.0.cos, dx) + units::scaled(p.0.sin, dy);
    if moved < 0 {
        return None;
    }
    Some(Pt { emu: units::saturate(units::rounded_half_q30(2 * moved) - advance.emu as i128) })
}

// ── Items ──────────────────────────────────────────────────────────────

/// How far the glyph at `i` of a run that starts at `a` advances.
pub open spec fn advance_of(glyphs: Seq<Glyph>, facts: Seq<GlyphFacts>, a: int, i: int) -> Pt {
    let w = if i > a && glyphs[i].generated {
        facts[i].unicode_width
    } else {
        facts[i].code_width
    };
    match w {
        Some(w) => w,
        None => Pt::spec_zero(),
    }
}

/// How far the glyphs of a run before `n` advance.
pub open spec fn advance_upto(glyphs: Seq<Glyph>, facts: Seq<GlyphFacts>, a: int, n: int) -> Pt
    decreases n - a,
{
    if n <= a {
        Pt::spec_zero()
    } else {
        advance_upto(glyphs, facts, a, n - 1).spec_plus(advance_of(glyphs, facts, a, n - 1))
    }
}

/// The least box around two boxes.
pub open spec fn box_union(a: RectF, b: RectF) -> RectF {
    RectF {
        left: a.left.spec_min(b.left),
        top: a.top.spec_min(b.top),
        right: a.right.spec_max(b.right),
        bottom: a.bottom.spec_max(b.bottom),
    }
}

/// The least box around the loose boxes of a run's glyphs before `n`, at least
/// one of them.
pub open spec fn loose_upto(glyphs: Seq<Glyph>, a: int, n: int) -> RectF
    decreases n - a,
{
    if n <= a + 1 {
        glyphs[a].loose
    } else {
        box_union(loose_upto(glyphs, a, n - 1), glyphs[n - 1].loose)
    }
}

/// The text of a run; `None` where a code point is no character.
pub open spec fn run_text(
    glyphs: Seq<Glyph>,
    facts: Seq<GlyphFacts>,
    a: int,
    b: int,
    resolving: bool,
) -> Option<Seq<char>> {
    c_string(final_codes(glyphs, facts, a, b, resolving))
}

/// A text, or the empty one.
pub open spec fn text_or_empty(s: Option<String>) -> Seq<char> {
    match s {
        Some(s) => s@,
        None => seq![],
    }
}

/// A length, or none.
pub open spec fn length_or_zero(v: Option<Pt>) -> Pt {
    match v {
        Some(v) => v,
        None => Pt::spec_zero(),
    }
}

/// Whether what an item says of its font is what its first glyph's font says.
pub open spec fn font_described(item: RawTextItem, font: Option<ItemFont>) -> bool {
    match font {
        Some(font) => {
            &&& item.font_name@ == text_or_empty(font.base_name)
            &&& item.font_ascent == length_or_zero(font.ascent)
            &&& item.font_descent == length_or_zero(font.descent)
        },
        None => {
            &&& item.font_name@ == Seq::<char>::empty()
            &&& item.font_ascent == Pt::spec_zero()
            &&& item.font_descent == Pt::spec_zero()
        },
    }
}

/// Whether the glyph names of an item are those of the run from `a` to `b`:
/// only a font that names its own glyphs gives any.
pub open spec fn names_listed(
    item: RawTextItem,
    glyphs: Seq<Glyph>,
    facts: Seq<GlyphFacts>,
    a: int,
    b: int,
) -> bool {
    let named = font_of(glyphs[a], facts[a]) matches Some(font) && font.font_type
        == FontType::Type3;
    match item.glyph_names {
        Some(names) => {
            &&& named
            &&& names@.len() == b - a
            &&& forall|i: int|
                0 <= i < b - a ==> (#[trigger] names@[i])@ == text_or_empty(
                    facts[a + i].glyph_name,
                )
        },
        None => !named,
    }
}

/// A colour as one number, where there is one.
pub open spec fn packed(color: Option<Color>, number: Option<u32>) -> bool {
    match (color, number) {
        (Some(c), Some(n)) => n == argb(c),
        (None, None) => true,
        _ => false,
    }
}

/// Whether an item is that of the run from `a` to `b`.
pub open spec fn is_item(
    item: RawTextItem,
    glyphs: Seq<Glyph>,
    facts: Seq<GlyphFacts>,
    a: int,
    b: int,
    resolving: bool,
) -> bool {
    let bounds = loose_upto(glyphs, a, b);
    let first = facts[a];
    &&& run_text(glyphs, facts, a, b, resolving) == Some(item.text@)
    &&& item.char_codes@ == Seq::new((b - a) as nat, |i: int| glyphs[a + i].char_code)
    &&& names_listed(item, glyphs, facts, a, b)
    &&& item.angle == glyphs[a].angle
    &&& item.text_width == (if font_of(glyphs[a], first) is Some {
        advance_upto(glyphs, facts, a, b)
    } else {
        Pt::spec_zero()
    })
    &&& item.x == bounds.left
    &&& item.y == bounds.top
    &&& item.width == bounds.right.spec_minus(bounds.left)
    &&& item.height == bounds.bottom.spec_minus(bounds.top)
    &&& item.grounding_bounds == tight_box(
        glyphs.subrange(a, b),
        final_codes(glyphs, facts, a, b, resolving),
        first.direction,
    )
    &&& item.baseline_gap == (if b == a + 1 && glyphs[a].generated && glyphs[a].unicode == 32 {
        gap_at(glyphs, facts, a)
    } else {
        None
    })
    &&& item.mcid == first.mcid
    &&& font_described(item, font_of(glyphs[a], first))
    &&& item.font_size == first.font_size
    &&& item.font_weight == first.font_weight
    &&& item.font_height == (if glyphs[a].text_object is Some {
        first.scaled_size
    } else {
        Pt::spec_zero()
    })
    &&& item.font_is_buggy == buggy(glyphs, facts, a, b)
    &&& item.trailing_space_generated == (glyphs[b - 1].generated && glyphs[b - 1].unicode == 32)
    &&& packed(first.fill, item.fill_color)
    &&& packed(first.stroke, item.stroke_color)
}

fn width_of_run(glyphs: &Vec<Glyph>, facts: &Vec<GlyphFacts>, a: usize, b: usize) -> (r: Pt)
    requires
        a < b <= glyphs@.len(),
        facts@.len() == glyphs@.len(),
    ensures
        r == advance_upto(glyphs@, facts@, a as int, b as int),
{
    let mut sum = Pt::zero();
    let mut i: usize = a;
    while i < b
        invariant
            a <= i <= b <= glyphs@.len(),
            facts@.len() == glyphs@.len(),
            sum == advance_upto(glyphs@, facts@, a as int, i as int),
        decreases b - i,
    {
        let w: Option<Pt> = if i > a && glyphs[i].generated {
            facts[i].unicode_width
        } else {
            facts[i].code_width
        };
        sum = sum.plus(
            match w {
                Some(w) => w,
                None => Pt::zero(),
            },
        );
        i += 1;
    }
    sum
}

fn bounds_of_run(glyphs: &Vec<Glyph>, a: usize, b: usize) -> (r: RectF)
    requires
        a < b <= glyphs@.len(),
    ensures
        r == loose_upto(glyphs@, a as int, b as int),
{
    let mut bounds = glyphs[a].loose;
    let mut i: usize = a + 1;
    while i < b
        invariant
            a < i <= b <= glyphs@.len(),
            bounds == loose_upto(glyphs@, a as int, i as int),
        decreases b - i,
    {
        let l = glyphs[i].loose;
        bounds =
        RectF {
            left: bounds.left.min(l.left),
            top: bounds.top.min(l.top),
            right: bounds.right.max(l.right),
            bottom: bounds.bottom.max(l.bottom),
        };
        i += 1;
    }
    bounds
}

fn char_codes_of(glyphs: &Vec<Glyph>, a: usize, b: usize) -> (r: Vec<u32>)
    requires
        a <= b <= glyphs@.len(),
    ensures
        r@ == Seq::new((b - a) as nat, |i: int| glyphs@[a + i].char_code),
{
    let mut out: Vec<u32> = Vec::new();
    let mut i: usize = a;
    while i < b
        invariant
            a <= i <= b <= glyphs@.len(),
            out@ =~= Seq::new((i - a) as nat, |j: int| glyphs@[a + j].char_code),
        decreases b - i,
    {
        out.push(glyphs[i].char_code);
        i += 1;
    }
    out
}

fn or_empty(s: &Option<String>) -> (r: String)
    ensures
        r@ == text_or_empty(*s),
{
    match s {
        Some(s) => s.clone(),
        None => String::new(),
    }
}

fn or_zero(v: Option<Pt>) -> (r: Pt)
    ensures
        r == length_or_zero(v),
{
    match v {
        Some(v) => v,
        None => Pt::zero(),
    }
}

fn names_of(facts: &Vec<GlyphFacts>, a: usize, b: usize) -> (r: Vec<String>)
    requires
        a <= b <= facts@.len(),
    ensures
        r@.len() == b - a,
        forall|i: int|
            0 <= i < b - a ==> (#[trigger] r@[i])@ == text_or_empty(facts@[a + i].glyph_name),
{
    let mut out: Vec<String> = Vec::new();
    let mut i: usize = a;
    while i < b
        invariant
            a <= i <= b <= facts@.len(),
            out@.len() == i - a,
            forall|j: int|
                0 <= j < i - a ==> (#[trigger] out@[j])@ == text_or_empty(facts@[a + j].glyph_name),
        decreases b - i,
    {
        out.push(or_empty(&facts[i].glyph_name));
        i += 1;
    }
    out
}

fn pack(color: Option<Color>) -> (r: Option<u32>)
    ensures
        packed(color, r),
{
    match color {
        Some(c) => Some(pack_argb(c)),
        None => None,
    }
}

/// The item of the run of glyphs from `a` to `b`; `None` where one of its code
/// points is no character.
pub fn build_item(
    glyphs: &Vec<Glyph>,
    facts: &Vec<GlyphFacts>,
    a: usize,
    b: usize,
    resolving: bool,
) -> (r: Option<RawTextItem>)
    requires
        a < b <= glyphs@.len(),
        facts@.len() == glyphs@.len(),
        forall|i: int| 0 <= i < facts@.len() ==> (#[trigger] facts@[i]).ok(),
    ensures
        match r {
            Some(item) => is_item(item, glyphs@, facts@, a as int, b as int, resolving),
            None => run_text(glyphs@, facts@, a as int, b as int, resolving) is None,
        },
{
    let first = glyphs[a];
    let f = &facts[a];
    assert(facts@[a as int].ok());
    let font_is_buggy = is_buggy(glyphs, facts, a, b);
    let codes = codes_of(glyphs, facts, a, b, font_is_buggy, resolving);
    let text = match c_string_from_utf32(&codes) {
        Some(text) => text,
        None => {
            return None;
        },
    };
    let bounds = bounds_of_run(glyphs, a, b);
    let has_object = first.text_object.is_some();
    let mut font_name = String::new();
    let mut font_ascent = Pt::zero();
    let mut font_descent = Pt::zero();
    let mut text_width = Pt::zero();
    let mut glyph_names: Option<Vec<String>> = None;
    if has_object {
        if let Some(font) = &f.font {
            font_name = or_empty(&font.base_name);
            font_ascent = or_zero(font.ascent);
            font_descent = or_zero(font.descent);
            text_width = width_of_run(glyphs, facts, a, b);
            match font.font_type {
                FontType::Type3 => {
                    glyph_names = Some(names_of(facts, a, b));
                },
                _ => {},
            }
        }
    }
    let baseline_gap = if b - a == 1 && first.generated && first.unicode == 32 {
        measure_baseline_gap(glyphs, facts, a)
    } else {
        None
    };
    Some(
        RawTextItem {
            text,
            char_codes: char_codes_of(glyphs, a, b),
            glyph_names,
            angle: first.angle,
            text_width,
            x: bounds.left,
            y: bounds.top,
            width: bounds.right.minus(bounds.left),
            height: bounds.bottom.minus(bounds.top),
            grounding_bounds: grounding_bounds(glyphs, a, b, &codes, f.direction),
            baseline_gap,
            mcid: f.mcid,
            font_name,
            font_size: f.font_size,
            font_weight: f.font_weight,
            font_height: if has_object {
                f.scaled_size
            } else {
                Pt::zero()
            },
            font_ascent,
            font_descent,
            font_is_buggy,
            trailing_space_generated: glyphs[b - 1].generated && glyphs[b - 1].unicode == 32,
            fill_color: pack(f.fill),
            stroke_color: pack(f.stroke),
        },
    )
}

/// The first `n` runs of a page that give an item.
pub open spec fn kept_runs(
    glyphs: Seq<Glyph>,
    facts: Seq<GlyphFacts>,
    resolving: bool,
    n: int,
) -> Seq<(int, int)>
    decreases n,
{
    if n <= 0 {
        seq![]
    } else {
        let before = kept_runs(glyphs, facts, resolving, n - 1);
        let (a, b) = runs_of(glyphs)[n - 1];
        if run_text(glyphs, facts, a, b, resolving) is Some {
            before.push((a, b))
        } else {
            before
        }
    }
}

/// Whether some items are those of some runs.
pub open spec fn are_items(
    items: Seq<RawTextItem>,
    glyphs: Seq<Glyph>,
    facts: Seq<GlyphFacts>,
    runs: Seq<(int, int)>,
    resolving: bool,
) -> bool {
    &&& items.len() == runs.len()
    &&& forall|k: int|
        0 <= k < items.len() ==> is_item(
            #[trigger] items[k],
            glyphs,
            facts,
            runs[k].0,
            runs[k].1,
            resolving,
        )
}

proof fn lemma_one_more_item(
    items: Seq<RawTextItem>,
    item: RawTextItem,
    glyphs: Seq<Glyph>,
    facts: Seq<GlyphFacts>,
    runs: Seq<(int, int)>,
    run: (int, int),
    resolving: bool,
)
    requires
        are_items(items, glyphs, facts, runs, resolving),
        is_item(item, glyphs, facts, run.0, run.1, resolving),
    ensures
        are_items(items.push(item), glyphs, facts, runs.push(run), resolving),
{
    assert forall|k: int| 0 <= k < items.push(item).len() implies is_item(
        #[trigger] items.push(item)[k],
        glyphs,
        facts,
        runs.push(run)[k].0,
        runs.push(run)[k].1,
        resolving,
    ) by {
        if k < items.len() {
            assert(is_item(items[k], glyphs, facts, runs[k].0, runs[k].1, resolving));
        }
    }
}

fn push_item(
    items: &mut Vec<RawTextItem>,
    glyphs: &Vec<Glyph>,
    facts: &Vec<GlyphFacts>,
    run: (usize, usize),
    resolving: bool,
    Ghost(kept): Ghost<Seq<(int, int)>>,
)
    requires
        run_ok(glyphs@, run.0 as int, run.1 as int),
        facts@.len() == glyphs@.len(),
        forall|i: int| 0 <= i < facts@.len() ==> (#[trigger] facts@[i]).ok(),
        are_items(old(items)@, glyphs@, facts@, kept, resolving),
    ensures
        are_items(
            final(items)@,
            glyphs@,
            facts@,
            if run_text(glyphs@, facts@, run.0 as int, run.1 as int, resolving) is Some {
                kept.push((run.0 as int, run.1 as int))
            } else {
                kept
            },
            resolving,
        ),
{
    if let Some(item) = build_item(glyphs, facts, run.0, run.1, resolving) {
        proof {
            lemma_one_more_item(
                items@,
                item,
                glyphs@,
                facts@,
                kept,
                (run.0 as int, run.1 as int),
                resolving,
            );
        }
        items.push(item);
    }
}

/// The runs that are kept of one run more.
proof fn lemma_one_more_run(
    glyphs: Seq<Glyph>,
    facts: Seq<GlyphFacts>,
    resolving: bool,
    n: int,
)
    requires
        0 <= n < runs_of(glyphs).len(),
    ensures
        ({
            let run = runs_of(glyphs)[n];
            let kept = kept_runs(glyphs, facts, resolving, n);
            kept_runs(glyphs, facts, resolving, n + 1) == (if run_text(
                glyphs,
                facts,
                run.0,
                run.1,
                resolving,
            ) is Some {
                kept.push(run)
            } else {
                kept
            })
        }),
{
}

/// The raw text items of a page: one for each run of its glyphs, in page order,
/// but for those with a code point that is no character.
#[verifier::spinoff_prover]
pub fn extract_raw_text_items(
    glyphs: &Vec<Glyph>,
    facts: &Vec<GlyphFacts>,
    resolving: bool,
) -> (r: Vec<RawTextItem>)
    requires
        facts@.len() == glyphs@.len(),
        forall|i: int| 0 <= i < facts@.len() ==> (#[trigger] facts@[i]).ok(),
    ensures
        are_items(
            r@,
            glyphs@,
            facts@,
            kept_runs(glyphs@, facts@, resolving, runs_of(glyphs@).len() as int),
            resolving,
        ),
{
    let runs = segment_runs(glyphs);
    let mut items: Vec<RawTextItem> = Vec::new();
    let mut n: usize = 0;
    proof {
        runs_partition_glyphs(glyphs@);
    }
    while n < runs.len()
        invariant
            n <= runs@.len(),
            range_views(runs@) == runs_of(glyphs@),
            facts@.len() == glyphs@.len(),
            forall|i: int| 0 <= i < facts@.len() ==> (#[trigger] facts@[i]).ok(),
            forall|k: int|
                0 <= k < runs_of(glyphs@).len() ==> run_ok(
                    glyphs@,
                    (#[trigger] runs_of(glyphs@)[k]).0,
                    runs_of(glyphs@)[k].1,
                ),
            are_items(
                items@,
                glyphs@,
                facts@,
                kept_runs(glyphs@, facts@, resolving, n as int),
                resolving,
            ),
        decreases runs@.len() - n,
    {
        let run: (usize, usize) = runs[n];
        assert(range_views(runs@)[n as int] == (run.0 as int, run.1 as int));
        assert(runs_of(glyphs@)[n as int] == (run.0 as int, run.1 as int));
        push_item(
            &mut items,
            glyphs,
            facts,
            run,
            resolving,
            Ghost(kept_runs(glyphs@, facts@, resolving, n as int)),
        );
        proof {
            lemma_one_more_run(glyphs@, facts@, resolving, n as int);
        }
        n += 1;
    }
    items
}

// ── Text of form widgets ───────────────────────────────────────────────

/// A text without the ASCII white space at its end.
pub open spec fn c_trimmed(s: Seq<char>) -> Seq<char>
    decreases s.len(),
{
    if s.len() > 0 && c_space(s.last() as u32) {
        c_trimmed(s.drop_last())
    } else {
        s
    }
}

/// Whether two lengths agree up to a hundredth of a point.
pub open spec fn near(a: Pt, b: Pt) -> bool {
    -units::CENTIPOINT < a.emu - b.emu < units::CENTIPOINT
}

/// Whether two items show the same text at the same place: their texts agree up
/// to white space at the end and are not empty, and their boxes and angles
/// coincide.
pub open spec fn same_item(a: RawTextItem, b: RawTextItem) -> bool {
    &&& c_trimmed(a.text@).len() > 0
    &&& c_trimmed(a.text@) == c_trimmed(b.text@)
    &&& near(a.x, b.x)
    &&& near(a.y, b.y)
    &&& near(a.x.spec_plus(a.width), b.x.spec_plus(b.width))
    &&& near(a.y.spec_plus(a.height), b.y.spec_plus(b.height))
    &&& -1000 < a.angle - b.angle < 1000
}

fn c_trimmed_len(s: &Vec<char>) -> (r: usize)
    ensures
        r <= s@.len(),
        c_trimmed(s@) == s@.take(r as int),
{
    let mut n: usize = s.len();
    assert(s@.take(n as int) =~= s@);
    while n > 0 && is_c_locale_space(s[n - 1] as u32)
        invariant
            n <= s@.len(),
            c_trimmed(s@) == c_trimmed(s@.take(n as int)),
        decreases n,
    {
        assert(s@.take(n as int).drop_last() =~= s@.take(n - 1));
        n -= 1;
    }
    n
}

fn near_by(a: Pt, b: Pt) -> (r: bool)
    ensures
        r == near(a, b),
{
    let d: i128 = a.emu as i128 - b.emu as i128;
    -127 < d && d < 127
}

/// Whether two items show the same text at the same place. Equal text elsewhere
/// on the page is another item.
pub fn same_text_item(a: &RawTextItem, b: &RawTextItem) -> (r: bool)
    ensures
        r == same_item(*a, *b),
{
    let s = text::chars_of(a.text.as_str());
    let t = text::chars_of(b.text.as_str());
    let m: usize = c_trimmed_len(&s);
    let n: usize = c_trimmed_len(&t);
    if m == 0 || m != n {
        assert(c_trimmed(a.text@).len() == m && c_trimmed(b.text@).len() == n);
        return false;
    }
    let mut i: usize = 0;
    while i < m
        invariant
            i <= m == n,
            m <= s@.len(),
            n <= t@.len(),
            s@ == a.text@,
            t@ == b.text@,
            c_trimmed(s@) == s@.take(m as int),
            c_trimmed(t@) == t@.take(n as int),
            forall|j: int| 0 <= j < i ==> s@[j] == t@[j],
        decreases m - i,
    {
        if s[i] != t[i] {
            assert(s@.take(m as int)[i as int] != t@.take(n as int)[i as int]);
            return false;
        }
        i += 1;
    }
    assert(s@.take(m as int) =~= t@.take(n as int));
    let turn: i128 = a.angle as i128 - b.angle as i128;
    near_by(a.x, b.x) && near_by(a.y, b.y) && near_by(a.x.plus(a.width), b.x.plus(b.width))
        && near_by(a.y.plus(a.height), b.y.plus(b.height)) && -1000 < turn && turn < 1000
}

/// Whether one of some items is the same as `w`.
pub open spec fn repeats(items: Seq<RawTextItem>, w: RawTextItem) -> bool {
    exists|i: int| 0 <= i < items.len() && same_item(w, #[trigger] items[i])
}

/// The first `n` widget items that repeat no item of the page, without their
/// marked-content ids.
pub open spec fn widget_additions(
    items: Seq<RawTextItem>,
    widgets: Seq<RawTextItem>,
    n: int,
) -> Seq<RawTextItem>
    decreases n,
{
    if n <= 0 {
        seq![]
    } else {
        let before = widget_additions(items, widgets, n - 1);
        if repeats(items, widgets[n - 1]) {
            before
        } else {
            before.push(RawTextItem { mcid: None, ..widgets[n - 1] })
        }
    }
}

fn is_repeated(items: &Vec<RawTextItem>, count: usize, w: &RawTextItem) -> (r: bool)
    requires
        count <= items@.len(),
    ensures
        r == repeats(items@.take(count as int), *w),
{
    let mut i: usize = 0;
    while i < count
        invariant
            i <= count <= items@.len(),
            forall|j: int| 0 <= j < i ==> !same_item(*w, #[trigger] items@[j]),
        decreases count - i,
    {
        if same_text_item(w, &items[i]) {
            assert(same_item(*w, items@.take(count as int)[i as int]));
            return true;
        }
        i += 1;
    }
    false
}

/// Appends the items that a page's form widgets paint, where their copy could
/// be read. An item of the page that a widget repeats is not added again. A
/// widget's marked-content ids do not belong to the page, so added items have
/// none. Where the copy could not be read the items stay as they are, and the
/// result says so.
pub fn append_raw_widget_text_items(
    widgets: Option<Vec<RawTextItem>>,
    items: &mut Vec<RawTextItem>,
) -> (r: bool)
    ensures
        r == (widgets is Some),
        match widgets {
            Some(w) => final(items)@ == old(items)@ + widget_additions(
                old(items)@,
                w@,
                w@.len() as int,
            ),
            None => final(items)@ == old(items)@,
        },
{
    let widgets = match widgets {
        Some(w) => w,
        None => {
            return false;
        },
    };
    let ghost all = widgets@;
    let ghost page = items@;
    let count: usize = items.len();
    assert(items@ =~= page + widget_additions(page, all, 0));
    for w in it: widgets
        invariant
            it.seq() == all,
            count == page.len(),
            items@ == page + widget_additions(page, all, it.index() as int),
        {
        let ghost n = it.index() as int;
        assert(items@.take(count as int) =~= page);
        if !is_repeated(items, count, &w) {
            let mut item = w;
            item.mcid = None;
            items.push(item);
            assert(items@ =~= page + widget_additions(page, all, n + 1));
        }
    }
    true
}

/// Which of two items comes first does not matter to whether they are the same.
pub proof fn sameness_is_mutual(a: RawTextItem, b: RawTextItem)
    ensures
        same_item(a, b) == same_item(b, a),
{
}

/// Text of nothing but white space is never the same as another, so a blank
/// widget is always added.
pub proof fn blank_text_repeats_nothing(items: Seq<RawTextItem>, w: RawTextItem)
    requires
        forall|i: int| 0 <= i < w.text@.len() ==> c_space(#[trigger] w.text@[i] as u32),
    ensures
        !repeats(items, w),
{
    lemma_blank_trims_away(w.text@);
}

proof fn lemma_blank_trims_away(s: Seq<char>)
    requires
        forall|i: int| 0 <= i < s.len() ==> c_space(#[trigger] s[i] as u32),
    ensures
        c_trimmed(s).len() == 0,
    decreases s.len(),
{
    if s.len() > 0 {
        assert(s.last() == s[s.len() - 1]);
        lemma_blank_trims_away(s.drop_last());
    }
}

/// A glyph that counts lies within what is reached, so the tight box turned
/// back covers it.
pub proof fn reach_covers_every_glyph(
    glyphs: Seq<Glyph>,
    codepoints: Seq<u32>,
    d: Direction,
    n: int,
    i: int,
)
    requires
        0 <= i < n <= glyphs.len(),
        grounds(glyphs[i], codepoints[i]),
    ensures
        reach_upto(glyphs, codepoints, d, n) matches Some(r) && {
            let own = reach_of(glyphs[i].strict, d);
            r.min_along <= own.min_along && own.max_along <= r.max_along && r.min_across
                <= own.min_across && own.max_across <= r.max_across
        },
    decreases n,
{
    if i < n - 1 {
        reach_covers_every_glyph(glyphs, codepoints, d, n - 1, i);
    }
}

}
