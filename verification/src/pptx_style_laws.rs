//! What the paragraphs and runs of a slide keep of what was declared for them.
use crate::pptx_paint;
use crate::pptx_style;
use crate::pptx_style::{
    Alignment, BodyParagraph, FontView, FragmentView, Inline, LineSpacingRule, ParagraphBlock,
    ParagraphStyle, ResolvedTextStyle, RunContext, RunElement, RunFont, ShapeAutoFit, Spacing,
    Theme,
};
use crate::units;
use crate::units::Pt;
use vstd::prelude::*;

verus! {

/// Whether a length is a part, in thousandths of a percent, of another one, to the
/// nearest unit.
pub open spec fn is_part_of(length: Pt, whole: Pt, part: int) -> bool {
    units::fits((whole.emu * part + 50_000) / 100_000) ==> whole.emu * part - 50_000
        < 100_000 * length.emu <= whole.emu * part + 50_000
}

/// Whether a distance is the one declared: points in hundredths, a percentage of
/// the size, or none.
pub open spec fn is_declared_distance(length: Pt, declared: Option<Spacing>, size: Pt) -> bool {
    match declared {
        Some(Spacing::Percent(p)) => is_part_of(length, size, p as int),
        Some(Spacing::Points(p)) => length.emu == units::sat(p * 127),
        None => length.emu == 0,
    }
}

/// Whether the style of a paragraph is the one declared, with eighteen points as
/// the size, half an inch between tab stops and single lines where nothing is.
pub open spec fn is_declared_style(
    r: ParagraphStyle,
    s: ResolvedTextStyle,
    auto_fit: ShapeAutoFit,
) -> bool {
    let size = match s.font_size {
        Some(v) => v,
        None => Pt { emu: 228_600 },
    };
    &&& s.alignment matches Some(a) ==> r.alignment == a
    &&& s.alignment is None ==> r.alignment == Alignment::Start
    &&& is_declared_distance(r.space_before, s.space_before, size)
    &&& is_declared_distance(r.space_after, s.space_after, size)
    &&& s.margin_left matches Some(v) ==> r.indent_left == v
    &&& s.margin_left is None ==> r.indent_left.emu == 0
    &&& s.margin_right matches Some(v) ==> r.indent_right == v
    &&& s.margin_right is None ==> r.indent_right.emu == 0
    &&& s.indent matches Some(v) ==> r.indent_first_line == v
    &&& s.indent is None ==> r.indent_first_line.emu == 0
    &&& s.default_tab_size matches Some(v) ==> r.default_tab_stop == v
    &&& s.default_tab_size is None ==> r.default_tab_stop.emu == 457_200
    &&& match s.line_spacing {
        Some(Spacing::Percent(p)) => r.line_spacing == LineSpacingRule::Auto(p),
        Some(Spacing::Points(p)) => r.line_spacing matches LineSpacingRule::AtLeast(v) && v.emu
            == units::sat(p * 127),
        None => r.line_spacing == LineSpacingRule::Auto(100_000),
    }
    &&& r.auto_fit.font_scale == auto_fit.font_scale
    &&& r.auto_fit.line_reduction == auto_fit.line_reduction
}

/// A style keeps what was declared for it: alignment, indents, distances, the
/// spacing of its lines, tab stops and the fit.
pub proof fn styles_keep_what_was_declared(s: ResolvedTextStyle, auto_fit: ShapeAutoFit)
    ensures
        is_declared_style(pptx_style::style_of(s, auto_fit), s, auto_fit),
{
}

/// A paragraph of a body is set in its own declared style, with the body's fit,
/// and starts no page.
pub proof fn paragraphs_are_set_in_their_own_style(
    b: ParagraphBlock,
    p: BodyParagraph,
    default_family: &str,
    auto_fit: ShapeAutoFit,
)
    requires
        pptx_style::is_paragraph_block(
            b,
            p.content@,
            pptx_style::context_of(p, default_family, auto_fit),
        ),
    ensures
        is_declared_style(b.style, p.style, auto_fit),
        !b.page_break_before,
{
    styles_keep_what_was_declared(p.style, auto_fit);
}

/// Titles are set in the theme's major face, everything else in its minor one.
pub proof fn titles_are_set_in_the_major_face(theme: Theme)
    ensures
        pptx_style::theme_face(Some(theme), true) == theme.major_font.latin@,
        pptx_style::theme_face(Some(theme), false) == theme.minor_font.latin@,
        pptx_style::theme_face(None, true).len() == 0,
        pptx_style::theme_face(None, false).len() == 0,
{
}

/// A run is set in its own face where it has one, else in that of the body, and as
/// bold and slanted as it says; in its own size, else the paragraph's, else
/// eighteen points, scaled to the fit.
pub proof fn runs_are_set_as_declared(context: RunContext, run: RunFont)
    ensures
        ({
            let f = context.font_of(run);
            let size = match (run.size, context.style.font_size) {
                (Some(v), _) => v,
                (None, Some(v)) => v,
                (None, None) => Pt { emu: 228_600 },
            };
            &&& run.family matches Some(name) ==> f.family == name@
            &&& run.family is None ==> f.family == context.default_family@
            &&& f.bold == run.bold
            &&& f.italic == run.italic
            &&& is_part_of(f.size, size, context.auto_fit.font_scale as int)
            &&& context.auto_fit.font_scale == 100_000 ==> f.size == size
        }),
{
}

/// Whether a fragment shows an element of a run, in the run's font and colour.
pub open spec fn shows(
    f: FragmentView,
    e: RunElement,
    context: RunContext,
    run: RunFont,
    color: Option<u32>,
) -> bool {
    let font = context.font_of(run);
    let rgb = match color {
        Some(c) => c as int,
        None => 0,
    };
    match e {
        RunElement::Text(t) => f matches FragmentView::Text { text, font: g, color: c } && text
            == t@ && g == font && c.b == rgb % 256 && c.g == (rgb / 256) % 256 && c.r == (rgb
            / 65_536) % 256,
        RunElement::Tab => f matches FragmentView::Tab { font: g, line_height, color: c } && g
            == font && line_height == font.size && c.b == rgb % 256 && c.g == (rgb / 256) % 256
            && c.r == (rgb / 65_536) % 256,
        RunElement::LineBreak => f matches FragmentView::LineBreak { line_height } && line_height
            == font.size,
        RunElement::Other => false,
    }
}

proof fn lemma_run(
    content: Seq<RunElement>,
    context: RunContext,
    run: RunFont,
    color: Option<u32>,
    n: int,
)
    requires
        0 <= n <= content.len(),
        forall|i: int| 0 <= i < content.len() ==> !(#[trigger] content[i] is Other),
    ensures
        ({
            let r = pptx_style::run_fragments(
                content,
                context.font_of(run),
                pptx_paint::run_paint(color),
                n,
            );
            &&& r.len() == n
            &&& forall|i: int|
                0 <= i < n ==> shows(#[trigger] r[i], content[i], context, run, color)
        }),
    decreases n,
{
    if n > 0 {
        lemma_run(content, context, run, color, n - 1);
        assert(!(content[n - 1] is Other));
    }
}

/// A run shows its text, tabs and line breaks one by one, in its own font and
/// colour, black where it declares none.
pub proof fn runs_show_their_elements(
    content: Vec<RunElement>,
    context: RunContext,
    run: RunFont,
    color: Option<u32>,
)
    requires
        forall|i: int| 0 <= i < content@.len() ==> !(#[trigger] content@[i] is Other),
    ensures
        ({
            let r = pptx_style::fragments_of(
                Inline::TextRun { content, font: run, color },
                context,
            );
            &&& r.len() == content@.len()
            &&& forall|i: int|
                0 <= i < r.len() ==> shows(#[trigger] r[i], content@[i], context, run, color)
        }),
{
    lemma_run(content@, context, run, color, content@.len() as int);
}

/// What is neither text nor tab nor line break shows nothing, and changes nothing
/// of what follows it.
pub proof fn other_elements_show_nothing(
    content: Seq<RunElement>,
    font: FontView,
    color: crate::draw_command::RgbColor,
    n: int,
)
    requires
        0 < n <= content.len(),
        content[n - 1] is Other,
    ensures
        pptx_style::run_fragments(content, font, color, n) == pptx_style::run_fragments(
            content,
            font,
            color,
            n - 1,
        ),
{
}

proof fn lemma_prefix(a: Seq<Inline>, b: Seq<Inline>, context: RunContext, n: int)
    requires
        0 <= n <= a.len(),
    ensures
        pptx_style::fragments_in(a + b, context, n) == pptx_style::fragments_in(a, context, n),
        pptx_style::colors_in(a + b, n) == pptx_style::colors_in(a, n),
    decreases n,
{
    if n > 0 {
        lemma_prefix(a, b, context, n - 1);
        assert((a + b)[n - 1] == a[n - 1]);
    }
}

/// Runs that follow each other show what each of them shows, in order: what stands
/// in one list behind another is shown behind it.
pub proof fn runs_show_in_order(a: Seq<Inline>, b: Seq<Inline>, context: RunContext, n: int)
    requires
        0 <= n <= b.len(),
    ensures
        pptx_style::fragments_in(a + b, context, a.len() + n) == pptx_style::fragments_in(
            a,
            context,
            a.len() as int,
        ) + pptx_style::fragments_in(b, context, n),
        pptx_style::colors_in(a + b, a.len() + n) == pptx_style::colors_in(a, a.len() as int)
            + pptx_style::colors_in(b, n),
    decreases n,
{
    if n > 0 {
        runs_show_in_order(a, b, context, n - 1);
        assert((a + b)[a.len() + n - 1] == b[n - 1]);
        assert(pptx_style::fragments_in(a + b, context, a.len() + n)
            =~= pptx_style::fragments_in(a, context, a.len() as int) + pptx_style::fragments_in(
            b,
            context,
            n,
        ));
        assert(pptx_style::colors_in(a + b, a.len() + n) =~= pptx_style::colors_in(
            a,
            a.len() as int,
        ) + pptx_style::colors_in(b, n));
    } else {
        lemma_prefix(a, b, context, a.len() as int);
        assert(pptx_style::fragments_in(b, context, 0) =~= seq![]);
        assert(pptx_style::colors_in(b, 0) =~= seq![]);
        assert(pptx_style::fragments_in(a, context, a.len() as int) + pptx_style::fragments_in(
            b,
            context,
            0,
        ) =~= pptx_style::fragments_in(a, context, a.len() as int));
        assert(pptx_style::colors_in(a, a.len() as int) + pptx_style::colors_in(b, 0)
            =~= pptx_style::colors_in(a, a.len() as int));
    }
}

/// A hyperlink shows what its runs show without it.
pub proof fn hyperlinks_show_their_runs(inner: Vec<Inline>, context: RunContext)
    ensures
        pptx_style::fragments_in(seq![Inline::Hyperlink(inner)], context, 1)
            == pptx_style::fragments_in(inner@, context, inner@.len() as int),
        pptx_style::colors_in(seq![Inline::Hyperlink(inner)], 1) == pptx_style::colors_in(
            inner@,
            inner@.len() as int,
        ),
{
    let one = seq![Inline::Hyperlink(inner)];
    reveal_with_fuel(pptx_style::fragments_in, 2);
    reveal_with_fuel(pptx_style::colors_in, 2);
    reveal_with_fuel(pptx_style::fragments_of, 2);
    reveal_with_fuel(pptx_style::colors_of, 2);
    assert(pptx_style::fragments_in(one, context, 1) =~= pptx_style::fragments_in(
        inner@,
        context,
        inner@.len() as int,
    ));
    assert(pptx_style::colors_in(one, 1) =~= pptx_style::colors_in(inner@, inner@.len() as int));
}

/// Each run hands on the one colour that it declares, and nothing else does.
pub proof fn runs_hand_on_their_colour(run: Inline)
    ensures
        run matches Inline::TextRun { content, font, color } ==> pptx_style::colors_of(run)
            == seq![color],
        run is Other ==> pptx_style::colors_of(run).len() == 0,
{
}

}
