//! How the texts of a slide are set: faces, sizes, spacing, and the pieces
//! that a paragraph is made of.
use crate::draw_command::RgbColor;
use crate::pptx_paint;
use crate::units;
use crate::units::Pt;
use vstd::prelude::*;

verus! {

/// The face that a theme names for Latin text.
#[derive(Debug)]
pub struct ThemeFontScheme {
    pub latin: String,
}

/// A theme, as far as it names faces.
#[derive(Debug)]
pub struct Theme {
    /// The face of titles.
    pub major_font: ThemeFontScheme,
    /// The face of everything else.
    pub minor_font: ThemeFontScheme,
}

/// The face that a theme names, in contracts.
pub open spec fn theme_face(theme: Option<Theme>, title: bool) -> Seq<char> {
    match theme {
        Some(t) => if title {
            t.major_font.latin@
        } else {
            t.minor_font.latin@
        },
        None => seq![],
    }
}

/// The face of a run that names none: the theme's, or Arial where the theme
/// names none either.
pub fn theme_family(theme: &Option<Theme>, title: bool) -> (r: String)
    ensures
        r@ == (if theme_face(*theme, title).len() > 0 {
            theme_face(*theme, title)
        } else {
            "Arial"@
        }),
{
    if let Some(t) = theme {
        let latin = if title {
            &t.major_font.latin
        } else {
            &t.minor_font.latin
        };
        if latin.as_str().unicode_len() > 0 {
            return latin.clone();
        }
    }
    "Arial".to_string()
}

/// The size of a run that nothing gives a size: 18 points.
pub fn spec_default_size() -> (r: Pt)
    ensures
        r.emu == 18 * 12700,
{
    Pt::new(18)
}

/// A distance between paragraphs or lines.
#[derive(Clone, Copy, PartialEq, Eq, Structural, Debug)]
pub enum Spacing {
    /// In thousandths of a percent.
    Percent(i64),
    /// In hundredths of a point.
    Points(i64),
}

/// `size * part / 100000`, to the nearest EMU, halves upwards.
pub open spec fn fraction_of(size: Pt, part: i64) -> Pt {
    units::pt((size.emu * part + 50_000) / 100_000)
}

/// A distance as a length, in contracts. A percentage is one of the font size.
pub open spec fn spacing_length(spacing: Option<Spacing>, size: Pt) -> Pt {
    match spacing {
        Some(Spacing::Percent(p)) => fraction_of(size, p),
        Some(Spacing::Points(p)) => units::pt(p * 127),
        None => Pt::spec_zero(),
    }
}

fn part_of(size: Pt, part: i64) -> (r: Pt)
    ensures
        r == fraction_of(size, part),
{
    assert(-0x4000_0000_0000_0000_0000_0000_0000_0000 <= size.emu * part
        <= 0x4000_0000_0000_0000_0000_0000_0000_0000) by (nonlinear_arith)
        requires
            -0x8000_0000_0000_0000 <= size.emu <= 0x7fff_ffff_ffff_ffff,
            -0x8000_0000_0000_0000 <= part <= 0x7fff_ffff_ffff_ffff,
    ;
    let n: i128 = (size.emu as i128) * (part as i128) + 50_000;
    let q: i128 = if n >= 0 {
        n / 100_000
    } else {
        let m: i128 = -n;
        let whole: i128 = m / 100_000;
        let rest: i128 = m % 100_000;
        if rest == 0 {
            -whole
        } else {
            -whole - 1
        }
    };
    Pt { emu: units::saturate(q) }
}

fn hundredths(p: i64) -> (r: Pt)
    ensures
        r == units::pt(p * 127),
{
    Pt { emu: units::saturate((p as i128) * 127) }
}

/// A distance between paragraphs as a length.
pub fn spacing_to_pt(spacing: Option<Spacing>, size: Pt) -> (r: Pt)
    ensures
        r == spacing_length(spacing, size),
{
    match spacing {
        Some(Spacing::Percent(p)) => part_of(size, p),
        Some(Spacing::Points(p)) => hundredths(p),
        None => Pt::zero(),
    }
}

/// How the lines of a paragraph are aligned.
#[derive(Clone, Copy, PartialEq, Eq, Structural, Debug)]
pub enum Alignment {
    Start,
    Center,
    End,
    Both,
}

/// How far a text is shrunk to fit its box, in thousandths of a percent.
#[derive(Clone, Copy, PartialEq, Eq, Structural, Debug)]
pub struct ShapeAutoFit {
    pub font_scale: i64,
    pub line_reduction: i64,
}

/// What a paragraph's cascade of styles came to.
#[derive(Clone, Copy, PartialEq, Eq, Structural, Debug)]
pub struct ResolvedTextStyle {
    pub font_size: Option<Pt>,
    pub alignment: Option<Alignment>,
    pub space_before: Option<Spacing>,
    pub space_after: Option<Spacing>,
    pub line_spacing: Option<Spacing>,
    pub margin_left: Option<Pt>,
    pub margin_right: Option<Pt>,
    pub indent: Option<Pt>,
    pub default_tab_size: Option<Pt>,
}

/// How far apart the lines of a paragraph are.
#[derive(Clone, Copy, PartialEq, Eq, Structural, Debug)]
pub enum LineSpacingRule {
    /// A multiple of the natural height, in thousandths of a percent.
    Auto(i64),
    /// No less than this.
    AtLeast(Pt),
}

/// How a paragraph is set.
#[derive(Clone, Copy, PartialEq, Eq, Structural, Debug)]
pub struct ParagraphStyle {
    pub alignment: Alignment,
    pub space_before: Pt,
    pub space_after: Pt,
    pub indent_left: Pt,
    pub indent_right: Pt,
    pub indent_first_line: Pt,
    pub line_spacing: LineSpacingRule,
    pub auto_fit: ShapeAutoFit,
    pub default_tab_stop: Pt,
}

/// A length, or `default` where none is given.
pub open spec fn length_or(v: Option<Pt>, default: Pt) -> Pt {
    match v {
        Some(p) => p,
        None => default,
    }
}

/// How a paragraph is set, in contracts. Spacing in percent is measured
/// against the paragraph's own font size; a spacing of lines in points is a
/// least height.
pub open spec fn style_of(s: ResolvedTextStyle, auto_fit: ShapeAutoFit) -> ParagraphStyle {
    let size = length_or(s.font_size, Pt { emu: 228_600 });
    ParagraphStyle {
        alignment: match s.alignment {
            Some(a) => a,
            None => Alignment::Start,
        },
        space_before: spacing_length(s.space_before, size),
        space_after: spacing_length(s.space_after, size),
        indent_left: length_or(s.margin_left, Pt::spec_zero()),
        indent_right: length_or(s.margin_right, Pt::spec_zero()),
        indent_first_line: length_or(s.indent, Pt::spec_zero()),
        line_spacing: match s.line_spacing {
            Some(Spacing::Percent(p)) => LineSpacingRule::Auto(p),
            Some(Spacing::Points(p)) => LineSpacingRule::AtLeast(units::pt(p * 127)),
            None => LineSpacingRule::Auto(100_000),
        },
        auto_fit,
        default_tab_stop: length_or(s.default_tab_size, Pt { emu: 457_200 }),
    }
}

fn or_else(v: Option<Pt>, default: Pt) -> (r: Pt)
    ensures
        r == length_or(v, default),
{
    match v {
        Some(p) => p,
        None => default,
    }
}

/// How a paragraph is set.
pub fn paragraph_style(resolved: &ResolvedTextStyle, auto_fit: ShapeAutoFit) -> (r: ParagraphStyle)
    ensures
        r == style_of(*resolved, auto_fit),
        resolved.alignment matches Some(a) ==> r.alignment == a,
        resolved.alignment is None ==> r.alignment == Alignment::Start,
{
    let size = or_else(resolved.font_size, spec_default_size());
    ParagraphStyle {
        alignment: match resolved.alignment {
            Some(a) => a,
            None => Alignment::Start,
        },
        space_before: spacing_to_pt(resolved.space_before, size),
        space_after: spacing_to_pt(resolved.space_after, size),
        indent_left: or_else(resolved.margin_left, Pt::zero()),
        indent_right: or_else(resolved.margin_right, Pt::zero()),
        indent_first_line: or_else(resolved.indent, Pt::zero()),
        line_spacing: match resolved.line_spacing {
            Some(Spacing::Percent(p)) => LineSpacingRule::Auto(p),
            Some(Spacing::Points(p)) => LineSpacingRule::AtLeast(hundredths(p)),
            None => LineSpacingRule::Auto(100_000),
        },
        auto_fit,
        default_tab_stop: or_else(resolved.default_tab_size, Pt::new(36)),
    }
}

// ── Pieces ─────────────────────────────────────────────────────────────

/// The font that a run declares, references to the theme resolved.
#[derive(Debug)]
pub struct RunFont {
    pub family: Option<String>,
    pub size: Option<Pt>,
    pub bold: bool,
    pub italic: bool,
}

/// The font that a piece is measured and set in.
#[derive(Debug)]
pub struct FontProps {
    pub family: String,
    pub size: Pt,
    pub bold: bool,
    pub italic: bool,
}

/// The contents of a [`FontProps`].
pub struct FontView {
    pub family: Seq<char>,
    pub size: Pt,
    pub bold: bool,
    pub italic: bool,
}

impl View for FontProps {
    type V = FontView;

    open spec fn view(&self) -> FontView {
        FontView { family: self.family@, size: self.size, bold: self.bold, italic: self.italic }
    }
}

/// What the runs of a paragraph have in common: its style, the face of a run
/// that names none, and how far the text is shrunk.
pub struct RunContext<'a> {
    pub style: ResolvedTextStyle,
    pub default_family: &'a str,
    pub auto_fit: ShapeAutoFit,
}

impl<'a> RunContext<'a> {
    /// The size of a run that declares `size`, before it is shrunk: its own, or
    /// the paragraph's, or eighteen points.
    pub open spec fn full_size(self, size: Option<Pt>) -> Pt {
        length_or(size, length_or(self.style.font_size, Pt { emu: 228_600 }))
    }

    /// The font of a run, in contracts.
    pub open spec fn font_of(self, run: RunFont) -> FontView {
        FontView {
            family: match run.family {
                Some(f) => f@,
                None => self.default_family@,
            },
            size: fraction_of(self.full_size(run.size), self.auto_fit.font_scale),
            bold: run.bold,
            italic: run.italic,
        }
    }

    /// The font of a run.
    pub fn font(&self, run: &RunFont) -> (r: FontProps)
        ensures
            r@ == self.font_of(*run),
    {
        let paragraph = or_else(self.style.font_size, spec_default_size());
        FontProps {
            family: match &run.family {
                Some(f) => f.clone(),
                None => self.default_family.to_string(),
            },
            size: part_of(or_else(run.size, paragraph), self.auto_fit.font_scale),
            bold: run.bold,
            italic: run.italic,
        }
    }
}

fn copy_font(f: &FontProps) -> (r: FontProps)
    ensures
        r@ == f@,
{
    FontProps { family: f.family.clone(), size: f.size, bold: f.bold, italic: f.italic }
}

/// A piece of a run.
#[derive(Debug)]
pub enum RunElement {
    Text(String),
    Tab,
    LineBreak,
    Other,
}

/// A piece of a paragraph.
#[derive(Debug)]
pub enum Inline {
    /// A run, its font, and the colour that it declares.
    TextRun { content: Vec<RunElement>, font: RunFont, color: Option<u32> },
    Hyperlink(Vec<Inline>),
    Other,
}

/// What is measured and set. What holds no text is as high as its font is large.
#[derive(Debug)]
pub enum Fragment {
    Text { text: String, font: FontProps, color: RgbColor },
    Tab { font: FontProps, line_height: Pt, color: RgbColor },
    LineBreak { line_height: Pt },
}

/// The contents of a [`Fragment`].
pub enum FragmentView {
    Text { text: Seq<char>, font: FontView, color: RgbColor },
    Tab { font: FontView, line_height: Pt, color: RgbColor },
    LineBreak { line_height: Pt },
}

impl View for Fragment {
    type V = FragmentView;

    open spec fn view(&self) -> FragmentView {
        match *self {
            Fragment::Text { text, font, color } => FragmentView::Text {
                text: text@,
                font: font@,
                color,
            },
            Fragment::Tab { font, line_height, color } => FragmentView::Tab {
                font: font@,
                line_height,
                color,
            },
            Fragment::LineBreak { line_height } => FragmentView::LineBreak { line_height },
        }
    }
}

/// The contents of some fragments.
pub open spec fn fragment_views(v: Seq<Fragment>) -> Seq<FragmentView> {
    v.map_values(|f: Fragment| f@)
}

/// The fragments of the first `n` pieces of a run.
pub open spec fn run_fragments(
    content: Seq<RunElement>,
    font: FontView,
    color: RgbColor,
    n: int,
) -> Seq<FragmentView>
    decreases n,
{
    if n <= 0 {
        seq![]
    } else {
        let before = run_fragments(content, font, color, n - 1);
        match content[n - 1] {
            RunElement::Text(text) => before.push(
                FragmentView::Text { text: text@, font, color },
            ),
            RunElement::Tab => before.push(
                FragmentView::Tab { font, line_height: font.size, color },
            ),
            RunElement::LineBreak => before.push(
                FragmentView::LineBreak { line_height: font.size },
            ),
            RunElement::Other => before,
        }
    }
}

/// The fragments of a piece of a paragraph: those of its runs, in order, a
/// link's contents in the link's place.
pub open spec fn fragments_of(inline: Inline, context: RunContext) -> Seq<FragmentView>
    decreases inline,
{
    match inline {
        Inline::TextRun { content, font, color } => run_fragments(
            content@,
            context.font_of(font),
            pptx_paint::run_paint(color),
            content@.len() as int,
        ),
        Inline::Hyperlink(inner) => fragments_in(inner@, context, inner@.len() as int),
        Inline::Other => seq![],
    }
}

/// The fragments of the first `n` pieces of a paragraph.
pub open spec fn fragments_in(inlines: Seq<Inline>, context: RunContext, n: int) -> Seq<
    FragmentView,
>
    decreases inlines, n,
{
    if n <= 0 || n > inlines.len() {
        seq![]
    } else {
        fragments_in(inlines, context, n - 1) + fragments_of(inlines[n - 1], context)
    }
}

/// The colours that the runs of a piece of a paragraph declare, one per run.
pub open spec fn colors_of(inline: Inline) -> Seq<Option<u32>>
    decreases inline,
{
    match inline {
        Inline::TextRun { color, .. } => seq![color],
        Inline::Hyperlink(inner) => colors_in(inner@, inner@.len() as int),
        Inline::Other => seq![],
    }
}

/// The colours that the runs of the first `n` pieces declare.
pub open spec fn colors_in(inlines: Seq<Inline>, n: int) -> Seq<Option<u32>>
    decreases inlines, n,
{
    if n <= 0 || n > inlines.len() {
        seq![]
    } else {
        colors_in(inlines, n - 1) + colors_of(inlines[n - 1])
    }
}

fn collect_inline(
    inline: Inline,
    context: &RunContext,
    fragments: &mut Vec<Fragment>,
    colors: &mut Vec<Option<u32>>,
)
    ensures
        fragment_views(final(fragments)@) == fragment_views(old(fragments)@) + fragments_of(
            inline,
            *context,
        ),
        final(colors)@ == old(colors)@ + colors_of(inline),
    decreases inline,
{
    let ghost f0 = fragment_views(fragments@);
    let ghost c0 = colors@;
    match inline {
        Inline::TextRun { content, font, color } => {
            let set = context.font(&font);
            let paint = pptx_paint::color_of(color);
            colors.push(color);
            let ghost all = content@;
            assert(fragment_views(fragments@) =~= f0 + run_fragments(all, set@, paint, 0));
            for element in it: content
                invariant
                    it.seq() == all,
                    fragment_views(fragments@) == f0 + run_fragments(
                        all,
                        set@,
                        paint,
                        it.index() as int,
                    ),
            {
                let ghost k = it.index() as int;
                let ghost before = fragments@;
                assert(element == all[k]);
                match element {
                    RunElement::Text(text) => {
                        fragments.push(
                            Fragment::Text { text, font: copy_font(&set), color: paint },
                        );
                    },
                    RunElement::Tab => {
                        fragments.push(
                            Fragment::Tab {
                                font: copy_font(&set),
                                line_height: set.size,
                                color: paint,
                            },
                        );
                    },
                    RunElement::LineBreak => {
                        fragments.push(Fragment::LineBreak { line_height: set.size });
                    },
                    RunElement::Other => {},
                }
                proof {
                    if fragments@.len() > before.len() {
                        assert(fragment_views(fragments@) =~= fragment_views(before).push(
                            fragments@.last()@,
                        ));
                    }
                    assert(fragment_views(fragments@) =~= f0 + run_fragments(
                        all,
                        set@,
                        paint,
                        k + 1,
                    ));
                }
            }
            assert(colors@ =~= c0 + seq![color]);
        },
        Inline::Hyperlink(inner) => {
            collect_run_fragments(inner, context, fragments, colors);
        },
        Inline::Other => {
            assert(fragment_views(fragments@) =~= f0 + seq![]);
            assert(colors@ =~= c0 + seq![]);
        },
    }
}

/// Collects the fragments of a paragraph, and the colours that its runs
/// declare.
pub fn collect_run_fragments(
    inlines: Vec<Inline>,
    context: &RunContext,
    fragments: &mut Vec<Fragment>,
    colors: &mut Vec<Option<u32>>,
)
    ensures
        fragment_views(final(fragments)@) == fragment_views(old(fragments)@) + fragments_in(
            inlines@,
            *context,
            inlines@.len() as int,
        ),
        final(colors)@ == old(colors)@ + colors_in(inlines@, inlines@.len() as int),
    decreases inlines,
{
    let ghost f0 = fragment_views(fragments@);
    let ghost c0 = colors@;
    let ghost all = inlines@;
    assert(fragment_views(fragments@) =~= f0 + fragments_in(all, *context, 0));
    assert(colors@ =~= c0 + colors_in(all, 0));
    for inline in it: inlines
        invariant
            it.seq() == all,
            all == inlines@,
            fragment_views(fragments@) == f0 + fragments_in(all, *context, it.index() as int),
            colors@ == c0 + colors_in(all, it.index() as int),
    {
        let ghost k = it.index() as int;
        assert(inline == all[k]);
        assert(decreases_to!(inlines => inlines@));
        assert(decreases_to!(inlines@ => inlines@[k]));
        collect_inline(inline, context, fragments, colors);
        assert(fragment_views(fragments@) =~= f0 + fragments_in(all, *context, k + 1));
        assert(colors@ =~= c0 + colors_in(all, k + 1));
    }
}

/// A paragraph as it is laid out in a shape. It never starts a page.
#[derive(Debug)]
pub struct ParagraphBlock {
    pub fragments: Vec<Fragment>,
    pub style: ParagraphStyle,
    pub page_break_before: bool,
}

/// Whether `b` is a paragraph of these pieces in this context.
pub open spec fn is_paragraph_block(
    b: ParagraphBlock,
    inlines: Seq<Inline>,
    context: RunContext,
) -> bool {
    &&& fragment_views(b.fragments@) == fragments_in(inlines, context, inlines.len() as int)
    &&& b.style == style_of(context.style, context.auto_fit)
    &&& !b.page_break_before
}

/// A paragraph as it is laid out in a shape. The colours that its runs declare
/// are added to `colors`.
pub fn paragraph_block(
    inlines: Vec<Inline>,
    context: &RunContext,
    colors: &mut Vec<Option<u32>>,
) -> (r: ParagraphBlock)
    ensures
        is_paragraph_block(r, inlines@, *context),
        final(colors)@ == old(colors)@ + colors_in(inlines@, inlines@.len() as int),
{
    let mut fragments: Vec<Fragment> = Vec::new();
    let ghost all = inlines@;
    collect_run_fragments(inlines, context, &mut fragments, colors);
    assert(fragment_views(fragments@) =~= fragments_in(all, *context, all.len() as int));
    ParagraphBlock {
        fragments,
        style: paragraph_style(&context.style, context.auto_fit),
        page_break_before: false,
    }
}

/// A paragraph of a text body, with what its cascade of styles came to.
#[derive(Debug)]
pub struct BodyParagraph {
    pub content: Vec<Inline>,
    pub style: ResolvedTextStyle,
}

/// The context of a paragraph's runs.
pub open spec fn context_of<'a>(
    p: BodyParagraph,
    default_family: &'a str,
    auto_fit: ShapeAutoFit,
) -> RunContext<'a> {
    RunContext { style: p.style, default_family, auto_fit }
}

/// The colours that the runs of the first `n` paragraphs declare.
pub open spec fn body_colors(paragraphs: Seq<BodyParagraph>, n: int) -> Seq<Option<u32>>
    decreases n,
{
    if n <= 0 {
        seq![]
    } else {
        let content = paragraphs[n - 1].content@;
        body_colors(paragraphs, n - 1) + colors_in(content, content.len() as int)
    }
}

/// The paragraphs of a text body, each in its own style, and the colours that
/// their runs declare.
pub fn body_blocks(
    paragraphs: Vec<BodyParagraph>,
    default_family: &str,
    auto_fit: ShapeAutoFit,
) -> (r: (Vec<ParagraphBlock>, Vec<Option<u32>>))
    ensures
        r.0@.len() == paragraphs@.len(),
        forall|i: int|
            0 <= i < paragraphs@.len() ==> is_paragraph_block(
                #[trigger] r.0@[i],
                paragraphs@[i].content@,
                context_of(paragraphs@[i], default_family, auto_fit),
            ),
        forall|i: int|
            0 <= i < paragraphs@.len() ==> (paragraphs@[i].style.alignment matches Some(a) ==> (
            #[trigger] r.0@[i]).style.alignment == a),
        forall|i: int|
            0 <= i < paragraphs@.len() && paragraphs@[i].style.alignment is None ==> (
            #[trigger] r.0@[i]).style.alignment == Alignment::Start,
        r.1@ == body_colors(paragraphs@, paragraphs@.len() as int),
{
    let ghost all = paragraphs@;
    let mut blocks: Vec<ParagraphBlock> = Vec::new();
    let mut colors: Vec<Option<u32>> = Vec::new();
    for p in it: paragraphs
        invariant
            it.seq() == all,
            blocks@.len() == it.index(),
            forall|i: int|
                0 <= i < it.index() ==> is_paragraph_block(
                    #[trigger] blocks@[i],
                    all[i].content@,
                    context_of(all[i], default_family, auto_fit),
                ),
            colors@ == body_colors(all, it.index() as int),
    {
        let context = RunContext { style: p.style, default_family, auto_fit };
        let block = paragraph_block(p.content, &context, &mut colors);
        blocks.push(block);
    }
    (blocks, colors)
}

}
