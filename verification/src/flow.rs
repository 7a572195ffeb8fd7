//! The order of a parse: which engine is asked next, and when it ends.
//!
//! The work itself, reading files, converting them, reading text off pictures,
//! is done by whoever runs the steps. After each piece of work a step takes what
//! came of it and says what is to be done next.
use crate::config::{LiteParseConfig, PageOrientationCorrection};
use crate::parser::{LiteParseError, OcrChoice};
use crate::stages::ScreenshotOptions;
use crate::text;
use vstd::prelude::*;

verus! {

/// The office formats that are read without a conversion.
#[derive(Clone, Copy, PartialEq, Eq, Structural, Debug)]
pub enum OfficeKind {
    Docx,
    Pptx,
    Xlsx,
}

impl OfficeKind {
    /// How the format is called, in contracts.
    pub open spec fn spec_name(self) -> Seq<char> {
        match self {
            OfficeKind::Docx => "DOCX"@,
            OfficeKind::Pptx => "PPTX"@,
            OfficeKind::Xlsx => "XLSX"@,
        }
    }

    /// How the format is called.
    pub fn name(self) -> (r: &'static str)
        ensures
            r@ == self.spec_name(),
    {
        match self {
            OfficeKind::Docx => "DOCX",
            OfficeKind::Pptx => "PPTX",
            OfficeKind::Xlsx => "XLSX",
        }
    }
}

// ── Options that a native parse cannot honour ──────────────────────────

/// The first option that a native parse cannot honour, in contracts. Only text
/// documents give link annotations.
pub open spec fn unsupported(c: LiteParseConfig, kind: OfficeKind) -> Option<Seq<char>> {
    if c.extract_form_fields {
        Some("extract_form_fields"@)
    } else if c.extract_structure_tree {
        Some("extract_structure_tree"@)
    } else if c.extract_vector_graphics {
        Some("extract_vector_graphics"@)
    } else if c.crop_box is Some {
        Some("crop_box"@)
    } else if c.skip_diagonal_text {
        Some("skip_diagonal_text"@)
    } else if kind != OfficeKind::Docx && c.extract_annotations {
        Some("extract_annotations"@)
    } else {
        None
    }
}

/// The first option that a native parse cannot honour.
pub fn ineligible_reason(c: &LiteParseConfig, kind: OfficeKind) -> (r: Option<&'static str>)
    ensures
        match r {
            Some(s) => unsupported(*c, kind) == Some(s@),
            None => unsupported(*c, kind) is None,
        },
{
    if c.extract_form_fields {
        Some("extract_form_fields")
    } else if c.extract_structure_tree {
        Some("extract_structure_tree")
    } else if c.extract_vector_graphics {
        Some("extract_vector_graphics")
    } else if c.crop_box.is_some() {
        Some("crop_box")
    } else if c.skip_diagonal_text {
        Some("skip_diagonal_text")
    } else {
        match kind {
            OfficeKind::Docx => None,
            _ => if c.extract_annotations {
                Some("extract_annotations")
            } else {
                None
            },
        }
    }
}

/// What is said where an option cannot be honoured, in contracts.
pub open spec fn refusal(reason: Seq<char>, kind: OfficeKind) -> Seq<char> {
    "`"@ + reason + "` is not supported by the native "@ + kind.spec_name()
        + " path; disable it, or set office_native = false (CLI: --no-office-native) to parse via the conversion path"@
}

/// What is said where an option cannot be honoured.
pub fn refusal_words(reason: &str, kind: OfficeKind) -> (r: String)
    ensures
        r@ == refusal(reason@, kind),
{
    let mut out = String::new();
    text::push_text(&mut out, "`");
    text::push_text(&mut out, reason);
    text::push_text(&mut out, "` is not supported by the native ");
    text::push_text(&mut out, kind.name());
    text::push_text(
        &mut out,
        " path; disable it, or set office_native = false (CLI: --no-office-native) to parse via the conversion path",
    );
    assert(out@ =~= refusal(reason@, kind));
    out
}

// ── A parse ────────────────────────────────────────────────────────────

/// Where a parse stands.
#[derive(Clone, Copy, PartialEq, Eq, Structural, Debug)]
pub enum ParseState {
    Start,
    /// It is being found out whether the input has this format.
    Probing(OfficeKind),
    /// The input is being read natively.
    Native(OfficeKind),
    /// The input is being turned into a PDF.
    Resolving,
    /// The PDF is being taken apart.
    Extracting,
    /// Text is being read off pictures.
    Recognising,
    /// The result is being put together, or the parse has ended.
    Ended,
}

/// What came of the work that was to be done.
#[derive(Debug)]
pub enum ParseEvent {
    Begin,
    /// Whether the input has the format that was asked about.
    Probed(bool),
    /// A native parse gave a result.
    NativeDone,
    /// A native parse found hardly any text, or failed.
    NativeGaveUp,
    /// The input is a PDF; whether it was converted.
    Resolved(bool),
    Extracted,
    Recognised,
    Failed(LiteParseError),
}

/// How pictures of pages are made to read text off.
#[derive(Clone, Copy, PartialEq, Eq, Structural, Debug)]
pub struct OcrRender {
    pub dpi: u64,
    /// Whether they are made in grey.
    pub grayscale: bool,
    pub form_fields: bool,
}

/// What is wanted of a PDF.
#[derive(Debug)]
pub struct ExtractPlan {
    pub password: Option<String>,
    /// The pages that are turned upright wherever the PDF is opened, but where
    /// facts on its origin are read off the document that was given.
    pub corrections: Vec<PageOrientationCorrection>,
    pub target_pages: Option<Vec<u32>>,
    pub max_pages: usize,
    pub engine: OcrChoice,
    /// Whether a broken form is mended first, and its kind reported.
    pub form_fields: bool,
    /// Whether facts on the document's origin are collected.
    pub doc_meta: bool,
    pub xfa_packets: bool,
    /// Pictures of the pages to read text off, where that is wanted.
    pub ocr_render: Option<OcrRender>,
    pub complexity: bool,
    /// Pictures of the pages to give out, where that is wanted.
    pub screenshots: Option<ScreenshotOptions>,
}

/// How text is read off pictures.
#[derive(Debug)]
pub struct RecognisePlan {
    pub language: String,
    /// How many pictures are read at a time.
    pub workers: usize,
    /// Whether it ends the parse that every reading failed.
    pub failure_fatal: bool,
}

/// What is to be done next.
#[derive(Debug)]
pub enum ParseAction {
    /// Find out whether the input has this format.
    Probe(OfficeKind),
    /// Read the input natively.
    ParseNative(OfficeKind),
    /// Turn the input into a PDF, with this password where it asks for one.
    Resolve(Option<String>),
    Extract(ExtractPlan),
    /// Read text off the pictures.
    Recognise(RecognisePlan),
    /// Put the result together.
    Assemble,
    /// Give out the native result.
    ReturnNative,
    Fail(LiteParseError),
    /// Nothing: the event does not belong here.
    Ignore,
}

/// What a parse depends on besides its options.
#[derive(Debug)]
pub struct ParseContext {
    /// What the check of the options said.
    pub checked: Result<(), LiteParseError>,
    /// The pages that the options ask for.
    pub targets: Result<Option<Vec<u32>>, LiteParseError>,
    /// The engine that reads text off pictures.
    pub engine: Result<OcrChoice, LiteParseError>,
    /// Whether that engine would rather have its pictures in grey.
    pub prefers_grayscale: bool,
}

/// Where a parse goes on once a format is done with: to the next format, and
/// after the last one to the conversion.
pub open spec fn after_kind(kind: OfficeKind) -> ParseState {
    match kind {
        OfficeKind::Docx => ParseState::Probing(OfficeKind::Pptx),
        OfficeKind::Pptx => ParseState::Probing(OfficeKind::Xlsx),
        OfficeKind::Xlsx => ParseState::Resolving,
    }
}

/// Whether an action is the one that belongs to a state.
pub open spec fn belongs(action: ParseAction, state: ParseState, c: LiteParseConfig) -> bool {
    match state {
        ParseState::Probing(k) => action == ParseAction::Probe(k),
        ParseState::Native(k) => action == ParseAction::ParseNative(k),
        ParseState::Resolving => action == ParseAction::Resolve(c.password),
        ParseState::Extracting => action is Extract,
        ParseState::Recognising => action is Recognise,
        ParseState::Ended => action is Assemble || action is ReturnNative || action is Fail,
        ParseState::Start => false,
    }
}

/// Whether a plan is what the options want of a PDF. Facts on a document's
/// origin say nothing of a PDF that was made from it.
pub open spec fn is_plan(
    plan: ExtractPlan,
    c: LiteParseConfig,
    converted: bool,
    targets: Option<Vec<u32>>,
    engine: OcrChoice,
    grayscale: bool,
) -> bool {
    &&& plan.password == c.password
    &&& plan.target_pages == targets
    &&& plan.max_pages == c.max_pages
    &&& plan.engine == engine
    &&& plan.form_fields == c.extract_form_fields
    &&& plan.doc_meta == (c.extract_document_metadata && !converted)
    &&& plan.xfa_packets == c.extract_xfa_packets
    &&& plan.ocr_render == (if c.ocr_enabled {
        Some(OcrRender { dpi: c.dpi, grayscale, form_fields: c.render_form_fields })
    } else {
        None
    })
    &&& plan.complexity == c.include_complexity
    &&& plan.corrections@ == c.page_orientation_corrections@
    &&& plan.screenshots == (if c.extract_screenshots {
        Some(
            ScreenshotOptions {
                dpi: c.dpi,
                detect_rects: c.detect_screenshot_rects,
                render_form_fields: c.render_form_fields,
                continue_on_page_error: c.continue_on_page_error,
            },
        )
    } else {
        None
    })
}

/// Whether `(to, action)` is the right step from `from` after `event`.
pub open spec fn is_step(
    c: LiteParseConfig,
    context: ParseContext,
    from: ParseState,
    event: ParseEvent,
    to: ParseState,
    action: ParseAction,
) -> bool {
    match (from, event) {
        (ParseState::Start, ParseEvent::Begin) => match context.checked {
            Err(e) => to == ParseState::Ended && action == ParseAction::Fail(e),
            Ok(_) => {
                &&& to == (if c.office_native {
                    ParseState::Probing(OfficeKind::Docx)
                } else {
                    ParseState::Resolving
                })
                &&& belongs(action, to, c)
            },
        },
        (ParseState::Probing(k), ParseEvent::Probed(true)) => match unsupported(c, k) {
            Some(reason) => {
                &&& to == ParseState::Ended
                &&& action matches ParseAction::Fail(e)
                &&& e.faults_config(refusal(reason, k))
            },
            None => to == ParseState::Native(k) && belongs(action, to, c),
        },
        (ParseState::Probing(k), ParseEvent::Probed(false)) => to == after_kind(k) && belongs(
            action,
            to,
            c,
        ),
        (ParseState::Native(_), ParseEvent::NativeDone) => to == ParseState::Ended && action
            is ReturnNative,
        (ParseState::Native(k), ParseEvent::NativeGaveUp) => to == after_kind(k) && belongs(
            action,
            to,
            c,
        ),
        (ParseState::Resolving, ParseEvent::Resolved(converted)) => match (
            context.targets,
            context.engine,
        ) {
            (Err(e), _) => to == ParseState::Ended && action == ParseAction::Fail(e),
            (Ok(_), Err(e)) => to == ParseState::Ended && action == ParseAction::Fail(e),
            (Ok(targets), Ok(engine)) => {
                &&& to == ParseState::Extracting
                &&& action matches ParseAction::Extract(plan)
                &&& is_plan(plan, c, converted, targets, engine, context.prefers_grayscale)
            },
        },
        (ParseState::Extracting, ParseEvent::Extracted) => if c.ocr_enabled {
            &&& to == ParseState::Recognising
            &&& action matches ParseAction::Recognise(plan)
            &&& plan.language == c.ocr_language
            &&& plan.workers == c.num_workers
            &&& plan.failure_fatal == c.ocr_failure_fatal
        } else {
            to == ParseState::Ended && action is Assemble
        },
        (ParseState::Recognising, ParseEvent::Recognised) => to == ParseState::Ended && action
            is Assemble,
        (ParseState::Resolving, ParseEvent::Failed(e)) => to == ParseState::Ended && action
            == ParseAction::Fail(e),
        (ParseState::Extracting, ParseEvent::Failed(e)) => to == ParseState::Ended && action
            == ParseAction::Fail(e),
        (ParseState::Recognising, ParseEvent::Failed(e)) => to == ParseState::Ended && action
            == ParseAction::Fail(e),
        _ => to == from && action is Ignore,
    }
}

fn copied(s: &Option<String>) -> (r: Option<String>)
    ensures
        r == *s,
{
    match s {
        Some(v) => Some(v.clone()),
        None => None,
    }
}

fn copied_corrections(all: &Vec<PageOrientationCorrection>) -> (r: Vec<
    PageOrientationCorrection,
>)
    ensures
        r@ == all@,
{
    let mut out: Vec<PageOrientationCorrection> = Vec::new();
    let mut i: usize = 0;
    while i < all.len()
        invariant
            i <= all@.len(),
            out@ == all@.take(i as int),
        decreases all@.len() - i,
    {
        out.push(all[i]);
        i += 1;
    }
    out
}

fn next_kind(c: &LiteParseConfig, kind: OfficeKind) -> (r: (ParseState, ParseAction))
    ensures
        r.0 == after_kind(kind),
        belongs(r.1, r.0, *c),
{
    match kind {
        OfficeKind::Docx => (
            ParseState::Probing(OfficeKind::Pptx),
            ParseAction::Probe(OfficeKind::Pptx),
        ),
        OfficeKind::Pptx => (
            ParseState::Probing(OfficeKind::Xlsx),
            ParseAction::Probe(OfficeKind::Xlsx),
        ),
        OfficeKind::Xlsx => (ParseState::Resolving, ParseAction::Resolve(copied(&c.password))),
    }
}

/// One step of a parse: what is to be done next, after what came of the work so
/// far. An engine that fails gives way to the next one, but an option that it
/// cannot honour ends the parse: no engine is swapped for another without being
/// asked.
pub fn parse_step(
    c: &LiteParseConfig,
    context: ParseContext,
    from: ParseState,
    event: ParseEvent,
) -> (r: (ParseState, ParseAction))
    ensures
        is_step(*c, context, from, event, r.0, r.1),
{
    match (from, event) {
        (ParseState::Start, ParseEvent::Begin) => match context.checked {
            Err(e) => (ParseState::Ended, ParseAction::Fail(e)),
            Ok(_) => if c.office_native {
                (ParseState::Probing(OfficeKind::Docx), ParseAction::Probe(OfficeKind::Docx))
            } else {
                (ParseState::Resolving, ParseAction::Resolve(copied(&c.password)))
            },
        },
        (ParseState::Probing(k), ParseEvent::Probed(found)) => {
            if !found {
                return next_kind(c, k);
            }
            match ineligible_reason(c, k) {
                Some(reason) => (
                    ParseState::Ended,
                    ParseAction::Fail(LiteParseError::Config(refusal_words(reason, k))),
                ),
                None => (ParseState::Native(k), ParseAction::ParseNative(k)),
            }
        },
        (ParseState::Native(_), ParseEvent::NativeDone) => (
            ParseState::Ended,
            ParseAction::ReturnNative,
        ),
        (ParseState::Native(k), ParseEvent::NativeGaveUp) => next_kind(c, k),
        (ParseState::Resolving, ParseEvent::Resolved(converted)) => {
            let targets = match context.targets {
                Ok(t) => t,
                Err(e) => {
                    return (ParseState::Ended, ParseAction::Fail(e));
                },
            };
            let engine = match context.engine {
                Ok(x) => x,
                Err(e) => {
                    return (ParseState::Ended, ParseAction::Fail(e));
                },
            };
            (
                ParseState::Extracting,
                ParseAction::Extract(
                    ExtractPlan {
                        password: copied(&c.password),
                        target_pages: targets,
                        max_pages: c.max_pages,
                        engine,
                        form_fields: c.extract_form_fields,
                        doc_meta: c.extract_document_metadata && !converted,
                        xfa_packets: c.extract_xfa_packets,
                        ocr_render: if c.ocr_enabled {
                            Some(
                                OcrRender {
                                    dpi: c.dpi,
                                    grayscale: context.prefers_grayscale,
                                    form_fields: c.render_form_fields,
                                },
                            )
                        } else {
                            None
                        },
                        complexity: c.include_complexity,
                        corrections: copied_corrections(&c.page_orientation_corrections),
                        screenshots: if c.extract_screenshots {
                            Some(
                                ScreenshotOptions {
                                    dpi: c.dpi,
                                    detect_rects: c.detect_screenshot_rects,
                                    render_form_fields: c.render_form_fields,
                                    continue_on_page_error: c.continue_on_page_error,
                                },
                            )
                        } else {
                            None
                        },
                    },
                ),
            )
        },
        (ParseState::Extracting, ParseEvent::Extracted) => if c.ocr_enabled {
            (
                ParseState::Recognising,
                ParseAction::Recognise(
                    RecognisePlan {
                        language: c.ocr_language.clone(),
                        workers: c.num_workers,
                        failure_fatal: c.ocr_failure_fatal,
                    },
                ),
            )
        } else {
            (ParseState::Ended, ParseAction::Assemble)
        },
        (ParseState::Recognising, ParseEvent::Recognised) => (
            ParseState::Ended,
            ParseAction::Assemble,
        ),
        (ParseState::Resolving, ParseEvent::Failed(e)) => (
            ParseState::Ended,
            ParseAction::Fail(e),
        ),
        (ParseState::Extracting, ParseEvent::Failed(e)) => (
            ParseState::Ended,
            ParseAction::Fail(e),
        ),
        (ParseState::Recognising, ParseEvent::Failed(e)) => (
            ParseState::Ended,
            ParseAction::Fail(e),
        ),
        _ => (from, ParseAction::Ignore),
    }
}

/// How many steps a parse can still take.
pub open spec fn steps_left(state: ParseState) -> int {
    match state {
        ParseState::Start => 10,
        ParseState::Probing(OfficeKind::Docx) => 9,
        ParseState::Native(OfficeKind::Docx) => 8,
        ParseState::Probing(OfficeKind::Pptx) => 7,
        ParseState::Native(OfficeKind::Pptx) => 6,
        ParseState::Probing(OfficeKind::Xlsx) => 5,
        ParseState::Native(OfficeKind::Xlsx) => 4,
        ParseState::Resolving => 3,
        ParseState::Extracting => 2,
        ParseState::Recognising => 1,
        ParseState::Ended => 0,
    }
}

/// Every step that does anything brings the parse nearer to its end.
pub proof fn every_step_moves_on(
    c: LiteParseConfig,
    context: ParseContext,
    from: ParseState,
    event: ParseEvent,
    to: ParseState,
    action: ParseAction,
)
    requires
        is_step(c, context, from, event, to, action),
        !(action is Ignore),
    ensures
        0 <= steps_left(to) < steps_left(from),
{
}

/// A document of a native format is never converted while an option stands that
/// its native parse cannot honour: the parse ends, and names the option.
pub proof fn no_engine_is_swapped_silently(
    c: LiteParseConfig,
    context: ParseContext,
    kind: OfficeKind,
    to: ParseState,
    action: ParseAction,
)
    requires
        unsupported(c, kind) is Some,
        is_step(c, context, ParseState::Probing(kind), ParseEvent::Probed(true), to, action),
    ensures
        to == ParseState::Ended,
        action matches ParseAction::Fail(e) && e.faults_config(
            refusal(unsupported(c, kind)->0, kind),
        ),
{
}

/// A native parse that gives up never ends the parse: another engine is asked.
pub proof fn engine_failure_falls_through(
    c: LiteParseConfig,
    context: ParseContext,
    kind: OfficeKind,
    to: ParseState,
    action: ParseAction,
)
    requires
        is_step(c, context, ParseState::Native(kind), ParseEvent::NativeGaveUp, to, action),
    ensures
        to != ParseState::Ended,
        action is Probe || action is Resolve,
{
}

/// Without the native formats no engine is asked before the conversion.
pub proof fn native_formats_can_be_left_out(
    c: LiteParseConfig,
    context: ParseContext,
    to: ParseState,
    action: ParseAction,
)
    requires
        !c.office_native,
        context.checked is Ok,
        is_step(c, context, ParseState::Start, ParseEvent::Begin, to, action),
    ensures
        to == ParseState::Resolving,
        action is Resolve,
{
}

/// A PDF that no engine took over goes through all steps in their order: it is
/// taken apart by the plan that the options ask for, text is read off its
/// pictures where that is wanted, and then the result is put together.
pub proof fn pdf_is_extracted_read_and_assembled(
    c: LiteParseConfig,
    context: ParseContext,
    converted: bool,
    states: Seq<ParseState>,
    actions: Seq<ParseAction>,
)
    requires
        states.len() == 3,
        actions.len() == 3,
        context.targets is Ok,
        context.engine is Ok,
        is_step(
            c,
            context,
            ParseState::Resolving,
            ParseEvent::Resolved(converted),
            states[0],
            actions[0],
        ),
        is_step(c, context, states[0], ParseEvent::Extracted, states[1], actions[1]),
        is_step(c, context, states[1], ParseEvent::Recognised, states[2], actions[2]),
    ensures
        actions[0] matches ParseAction::Extract(plan) && is_plan(
            plan,
            c,
            converted,
            context.targets->Ok_0,
            context.engine->Ok_0,
            context.prefers_grayscale,
        ),
        if c.ocr_enabled {
            actions[1] is Recognise && actions[2] is Assemble
        } else {
            actions[1] is Assemble && actions[2] is Ignore
        },
        states[2] is Ended,
{
}

/// Facts on a document's origin come from the document as it was given: where a
/// form was mended and the given document still opens, from that one.
pub fn metadata_from_given(mended: bool, given_opens: bool) -> (r: bool)
    ensures
        r == (mended && given_opens),
{
    mended && given_opens
}

// ── A screenshot ───────────────────────────────────────────────────────

/// Where the making of screenshots stands.
#[derive(Clone, Copy, PartialEq, Eq, Structural, Debug)]
pub enum ShotState {
    Start,
    Probing(OfficeKind),
    Drawing(OfficeKind),
    /// The input is being turned into a PDF and rendered.
    Rendering,
    Ended,
}

/// What came of the work that was to be done.
#[derive(Debug)]
pub enum ShotEvent {
    Begin,
    Probed(bool),
    /// The pictures are there.
    Drawn,
    Failed(LiteParseError),
}

/// How a PDF is rendered.
#[derive(Debug)]
pub struct RenderPlan {
    pub dpi: u64,
    pub password: Option<String>,
    /// The pages that are turned upright first.
    pub corrections: Vec<PageOrientationCorrection>,
    /// Whether solid boxes are looked for.
    pub detect_rects: bool,
    pub form_fields: bool,
}

/// Whether a PDF is rendered as the options ask for.
pub open spec fn is_render_plan(plan: RenderPlan, c: LiteParseConfig) -> bool {
    &&& plan.dpi == c.dpi
    &&& plan.password == c.password
    &&& plan.corrections@ == c.page_orientation_corrections@
    &&& plan.detect_rects == c.detect_screenshot_rects
    &&& plan.form_fields == c.render_form_fields
}

/// What is to be done next.
#[derive(Debug)]
pub enum ShotAction {
    Probe(OfficeKind),
    /// Draw the pages natively.
    Draw(OfficeKind),
    /// Turn the input into a PDF and render it.
    Render(RenderPlan),
    /// Give out the pictures.
    Return,
    Fail(LiteParseError),
    Ignore,
}

/// Where it goes on once a format is done with.
pub open spec fn shot_after_kind(kind: OfficeKind) -> ShotState {
    match kind {
        OfficeKind::Docx => ShotState::Probing(OfficeKind::Pptx),
        OfficeKind::Pptx => ShotState::Probing(OfficeKind::Xlsx),
        OfficeKind::Xlsx => ShotState::Rendering,
    }
}

/// Whether an action is the one that belongs to a state.
pub open spec fn shot_belongs(action: ShotAction, state: ShotState, c: LiteParseConfig) -> bool {
    match state {
        ShotState::Probing(k) => action == ShotAction::Probe(k),
        ShotState::Drawing(k) => action == ShotAction::Draw(k),
        ShotState::Rendering => action matches ShotAction::Render(plan) && is_render_plan(plan, c),
        ShotState::Ended => action is Return || action is Fail,
        ShotState::Start => false,
    }
}

/// Whether `(to, action)` is the right step from `from` after `event`.
pub open spec fn is_shot_step(
    c: LiteParseConfig,
    from: ShotState,
    event: ShotEvent,
    to: ShotState,
    action: ShotAction,
) -> bool {
    match (from, event) {
        (ShotState::Start, ShotEvent::Begin) => {
            &&& to == (if c.office_native {
                ShotState::Probing(OfficeKind::Docx)
            } else {
                ShotState::Rendering
            })
            &&& shot_belongs(action, to, c)
        },
        (ShotState::Probing(k), ShotEvent::Probed(found)) => {
            &&& to == (if found {
                ShotState::Drawing(k)
            } else {
                shot_after_kind(k)
            })
            &&& shot_belongs(action, to, c)
        },
        (ShotState::Drawing(_), ShotEvent::Drawn) => to == ShotState::Ended && action is Return,
        (ShotState::Drawing(k), ShotEvent::Failed(e)) => if e is Conversion {
            to == shot_after_kind(k) && shot_belongs(action, to, c)
        } else {
            to == ShotState::Ended && action == ShotAction::Fail(e)
        },
        (ShotState::Rendering, ShotEvent::Drawn) => to == ShotState::Ended && action is Return,
        (ShotState::Rendering, ShotEvent::Failed(e)) => to == ShotState::Ended && action
            == ShotAction::Fail(e),
        _ => to == from && action is Ignore,
    }
}

fn render_step(c: &LiteParseConfig) -> (r: (ShotState, ShotAction))
    ensures
        r.0 == ShotState::Rendering,
        shot_belongs(r.1, r.0, *c),
{
    let plan = RenderPlan {
        dpi: c.dpi,
        password: copied(&c.password),
        corrections: copied_corrections(&c.page_orientation_corrections),
        detect_rects: c.detect_screenshot_rects,
        form_fields: c.render_form_fields,
    };
    (ShotState::Rendering, ShotAction::Render(plan))
}

fn next_shot_kind(c: &LiteParseConfig, kind: OfficeKind) -> (r: (ShotState, ShotAction))
    ensures
        r.0 == shot_after_kind(kind),
        shot_belongs(r.1, r.0, *c),
{
    match kind {
        OfficeKind::Docx => (
            ShotState::Probing(OfficeKind::Pptx),
            ShotAction::Probe(OfficeKind::Pptx),
        ),
        OfficeKind::Pptx => (
            ShotState::Probing(OfficeKind::Xlsx),
            ShotAction::Probe(OfficeKind::Xlsx),
        ),
        OfficeKind::Xlsx => render_step(c),
    }
}

/// One step of the making of screenshots. An engine that fails gives way to the
/// next one; a mistake of the caller's, such as a page that is not there, ends
/// it.
pub fn screenshot_step(c: &LiteParseConfig, from: ShotState, event: ShotEvent) -> (r: (
    ShotState,
    ShotAction,
))
    ensures
        is_shot_step(*c, from, event, r.0, r.1),
{
    match (from, event) {
        (ShotState::Start, ShotEvent::Begin) => if c.office_native {
            (ShotState::Probing(OfficeKind::Docx), ShotAction::Probe(OfficeKind::Docx))
        } else {
            render_step(c)
        },
        (ShotState::Probing(k), ShotEvent::Probed(found)) => if found {
            (ShotState::Drawing(k), ShotAction::Draw(k))
        } else {
            next_shot_kind(c, k)
        },
        (ShotState::Drawing(_), ShotEvent::Drawn) => (ShotState::Ended, ShotAction::Return),
        (ShotState::Drawing(k), ShotEvent::Failed(e)) => match e {
            LiteParseError::Conversion(_) => next_shot_kind(c, k),
            other => (ShotState::Ended, ShotAction::Fail(other)),
        },
        (ShotState::Rendering, ShotEvent::Drawn) => (ShotState::Ended, ShotAction::Return),
        (ShotState::Rendering, ShotEvent::Failed(e)) => (ShotState::Ended, ShotAction::Fail(e)),
        _ => (from, ShotAction::Ignore),
    }
}

/// A PDF is opened with the same pages turned upright for a parse as for
/// screenshots, so that both see the same pages.
pub proof fn pages_stand_alike_wherever_a_pdf_is_opened(
    c: LiteParseConfig,
    plan: ExtractPlan,
    converted: bool,
    targets: Option<Vec<u32>>,
    engine: OcrChoice,
    grayscale: bool,
    shots: RenderPlan,
)
    requires
        is_plan(plan, c, converted, targets, engine, grayscale),
        is_render_plan(shots, c),
    ensures
        plan.corrections@ == shots.corrections@,
        plan.password == shots.password,
        plan.screenshots matches Some(o) ==> o.dpi == shots.dpi && o.detect_rects
            == shots.detect_rects && o.render_form_fields == shots.form_fields,
{
}

/// How many steps the making of screenshots can still take.
pub open spec fn shot_steps_left(state: ShotState) -> int {
    match state {
        ShotState::Start => 8,
        ShotState::Probing(OfficeKind::Docx) => 7,
        ShotState::Drawing(OfficeKind::Docx) => 6,
        ShotState::Probing(OfficeKind::Pptx) => 5,
        ShotState::Drawing(OfficeKind::Pptx) => 4,
        ShotState::Probing(OfficeKind::Xlsx) => 3,
        ShotState::Drawing(OfficeKind::Xlsx) => 2,
        ShotState::Rendering => 1,
        ShotState::Ended => 0,
    }
}

/// Every step that does anything brings the screenshots nearer to their end.
pub proof fn every_shot_step_moves_on(
    c: LiteParseConfig,
    from: ShotState,
    event: ShotEvent,
    to: ShotState,
    action: ShotAction,
)
    requires
        is_shot_step(c, from, event, to, action),
        !(action is Ignore),
    ensures
        0 <= shot_steps_left(to) < shot_steps_left(from),
{
}

}
