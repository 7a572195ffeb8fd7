//! The parser and what it gives back.
use crate::composition;
use crate::config::{Header, ImageMode, LiteParseConfig};
use crate::images;
use crate::native;
use crate::stages;
use crate::stages::{ContentFilters, ExtractRequest, ExtractionOutputOptions, GridText};
use crate::text;
use crate::types::{
    DocumentMetadata, ExtractedImage, LayoutBlock, LayoutComplexityStats, OutlineTarget, Page,
    PageComplexityStats, PageError, ParsedPage, ScreenshotRect, XfaPacket,
};
use vstd::prelude::*;

verus! {

/// Why a parse failed.
#[derive(Debug)]
pub enum LiteParseError {
    /// The options contradict each other or the input.
    Config(String),
    /// An engine could not read or convert the input.
    Conversion(String),
    Other(String),
}

impl LiteParseError {
    /// What is said of an error.
    pub fn message(&self) -> (r: String)
        ensures
            r@ == match *self {
                LiteParseError::Config(s) => "invalid config: "@ + s@,
                LiteParseError::Conversion(s) => s@,
                LiteParseError::Other(s) => s@,
            },
    {
        match self {
            LiteParseError::Config(s) => {
                let mut out = String::new();
                text::push_text(&mut out, "invalid config: ");
                text::push_text(&mut out, s.as_str());
                assert(out@ =~= "invalid config: "@ + s@);
                out
            },
            LiteParseError::Conversion(s) => s.clone(),
            LiteParseError::Other(s) => s.clone(),
        }
    }

    /// Whether an error finds fault with the options, in these words.
    pub open spec fn faults_config(self, words: Seq<char>) -> bool {
        self matches LiteParseError::Config(s) && s@ == words
    }

    /// Whether an error is neither of the options nor of an engine, in these
    /// words.
    pub open spec fn says(self, words: Seq<char>) -> bool {
        self matches LiteParseError::Other(s) && s@ == words
    }
}

/// What a parse gives back.
#[derive(Debug)]
pub struct ParseResult {
    /// How many pages the document has, whether they were asked for or not.
    pub total_pages: usize,
    pub pages: Vec<ParsedPage>,
    /// The pages that could not be taken out.
    pub page_errors: Vec<PageError>,
    /// The text of all pages.
    pub text: String,
    pub outline: Vec<OutlineTarget>,
    /// Empty unless images were asked for.
    pub images: Vec<ExtractedImage>,
    /// Empty unless pictures of the pages were asked for.
    pub screenshots: Vec<ScreenshotResult>,
    /// How many images could not be taken out.
    pub image_error_count: u32,
    /// 0 for no form, 1 for an AcroForm, 2 and 3 for XFA; only where form fields
    /// were asked for.
    pub form_type: Option<i32>,
    pub creator: Option<String>,
    pub producer: Option<String>,
    pub doc_meta: Option<DocumentMetadata>,
    /// Empty for a document without any, absent where they were not asked for.
    pub xfa_packets: Option<Vec<XfaPacket>>,
}

/// The picture of a page.
#[derive(Debug)]
pub struct ScreenshotResult {
    /// Counted from 1.
    pub page_num: u32,
    pub width: u32,
    pub height: u32,
    pub image_bytes: Vec<u8>,
    /// Whether all of it has one colour.
    pub is_solid_fill: bool,
    /// The solid boxes found in it, where they were asked for.
    pub rects: Vec<ScreenshotRect>,
}

/// Stands for an engine of the caller's where there is none.
#[derive(Debug)]
pub struct NoEngine;

/// Stands for a resolver of the caller's where there is none.
#[derive(Debug)]
pub struct NoResolver;

/// A parser: its options, and the engine and the resolver that a caller
/// provides.
#[derive(Debug)]
pub struct LiteParse<E, G> {
    config: LiteParseConfig,
    ocr_engine_override: Option<E>,
    glyph_resolver: Option<G>,
}

impl<E, G> LiteParse<E, G> {
    /// The options.
    pub closed spec fn settings(self) -> LiteParseConfig {
        self.config
    }

    /// The engine that reads text off pictures, where the caller provides one.
    pub closed spec fn engine(self) -> Option<E> {
        self.ocr_engine_override
    }

    /// What recognises glyphs, where the caller provides it.
    pub closed spec fn resolver(self) -> Option<G> {
        self.glyph_resolver
    }
}

impl LiteParse<NoEngine, NoResolver> {
    /// A parser with nothing but options.
    pub fn new(config: LiteParseConfig) -> (r: LiteParse<NoEngine, NoResolver>)
        ensures
            r.settings() == config,
            r.engine() is None,
            r.resolver() is None,
    {
        LiteParse { config, ocr_engine_override: None, glyph_resolver: None }
    }
}

impl<G> LiteParse<NoEngine, G> {
    /// A parser with these options and, where there is one, this resolver for the
    /// glyphs of fonts that cannot be trusted.
    pub fn new_resolving(config: LiteParseConfig, resolver: Option<G>) -> (r: Self)
        ensures
            r.settings() == config,
            r.engine() is None,
            r.resolver() == resolver,
    {
        LiteParse { config, ocr_engine_override: None, glyph_resolver: resolver }
    }
}

/// Which engine reads text off pictures.
#[derive(Debug)]
pub enum OcrChoice {
    /// None at all.
    Disabled,
    /// The caller's.
    Provided,
    /// A server: its address, what goes with each request, and how long to wait
    /// for an answer before asking again.
    Server { url: String, headers: Vec<Header>, hedge_delays_ms: Vec<u64> },
    /// The one that is built in, with its trained data.
    BuiltIn { tessdata_path: Option<String> },
}

/// What the program itself has for reading text off pictures.
#[derive(Debug, Clone, Copy, PartialEq, Eq, Structural)]
pub enum OcrHost {
    /// An engine that is built in, and servers.
    Bundled,
    /// Servers alone.
    ServerOnly,
    /// Nothing but the engine that the caller gives it.
    CallbackOnly,
}

fn copied_headers(headers: &Vec<Header>) -> (r: Vec<Header>)
    ensures
        r@ == headers@,
{
    let mut out: Vec<Header> = Vec::new();
    let mut i: usize = 0;
    while i < headers.len()
        invariant
            i <= headers@.len(),
            out@ == headers@.take(i as int),
        decreases headers@.len() - i,
    {
        out.push(headers[i].clone());
        i += 1;
    }
    out
}

fn copied_delays(delays: &Vec<u64>) -> (r: Vec<u64>)
    ensures
        r@ == delays@,
{
    let mut out: Vec<u64> = Vec::new();
    let mut i: usize = 0;
    while i < delays.len()
        invariant
            i <= delays@.len(),
            out@ == delays@.take(i as int),
        decreases delays@.len() - i,
    {
        out.push(delays[i]);
        i += 1;
    }
    out
}

impl<E, G> LiteParse<E, G> {
    /// The options.
    pub fn config(&self) -> (r: &LiteParseConfig)
        ensures
            *r == self.settings(),
    {
        &self.config
    }

    /// The same parser with an engine of the caller's, which goes before all
    /// others.
    pub fn with_ocr_engine<F>(self, engine: F) -> (r: LiteParse<F, G>)
        ensures
            r.settings() == self.settings(),
            r.engine() == Some(engine),
            r.resolver() == self.resolver(),
    {
        LiteParse {
            config: self.config,
            ocr_engine_override: Some(engine),
            glyph_resolver: self.glyph_resolver,
        }
    }

    /// The same parser with a resolver of the caller's for glyphs of fonts that
    /// cannot be trusted.
    pub fn with_glyph_resolver<H>(self, resolver: H) -> (r: LiteParse<E, H>)
        ensures
            r.settings() == self.settings(),
            r.engine() == self.engine(),
            r.resolver() == Some(resolver),
    {
        LiteParse {
            config: self.config,
            ocr_engine_override: self.ocr_engine_override,
            glyph_resolver: Some(resolver),
        }
    }

    /// Whether the options agree with each other: images can only be written
    /// where they are taken out.
    pub fn validate_output_config(&self) -> (r: Result<(), LiteParseError>)
        ensures
            match r {
                Ok(_) => self.settings().image_output_dir is None
                    || self.settings().wants_images(),
                Err(e) => self.settings().image_output_dir is Some
                    && !self.settings().wants_images() && e.faults_config(
                    "image_output_dir requires extract_images = true (or image_mode = embed)"@,
                ),
            },
    {
        if self.config.image_output_dir.is_some() && !self.config.effective_extract_images() {
            return Err(
                LiteParseError::Config(
                    "image_output_dir requires extract_images = true (or image_mode = embed)".to_string(),
                ),
            );
        }
        Ok(())
    }

    /// The pages that the options ask for by number, as `parse` reads them.
    pub fn resolve_target_pages<F: Fn(&String) -> Result<Vec<u32>, String>>(
        &self,
        parse: &F,
    ) -> (r: Result<Option<Vec<u32>>, LiteParseError>)
        requires
            forall|s: &String| call_requires(*parse, (s,)),
        ensures
            match self.settings().target_pages {
                None => r == Ok::<Option<Vec<u32>>, LiteParseError>(None),
                Some(s) => exists|read: Result<Vec<u32>, String>| #[trigger]
                    call_ensures(*parse, (&s,), read) && match (read, r) {
                        (Ok(pages), Ok(Some(out))) => out == pages,
                        (Err(why), Err(e)) => e.says("invalid --target-pages: "@ + why@),
                        _ => false,
                    },
            },
    {
        match &self.config.target_pages {
            None => Ok(None),
            Some(s) => {
                let read = parse(s);
                assert(call_ensures(*parse, (s,), read));
                match read {
                    Ok(pages) => Ok(Some(pages)),
                    Err(why) => {
                        let mut words = String::new();
                        text::push_text(&mut words, "invalid --target-pages: ");
                        text::push_text(&mut words, why.as_str());
                        assert(words@ =~= "invalid --target-pages: "@ + why@);
                        Err(LiteParseError::Other(words))
                    },
                }
            },
        }
    }

    /// Which engine reads text off pictures: the caller's before a server, and a
    /// server before the one that is built in. It fails only where there is
    /// none.
    pub fn ocr_choice(&self, host: OcrHost) -> (r: Result<OcrChoice, LiteParseError>)
        ensures
            ({
                let c = self.settings();
                if !c.ocr_enabled {
                    r matches Ok(choice) && choice is Disabled
                } else if self.engine() is Some {
                    r matches Ok(choice) && choice is Provided
                } else if host == OcrHost::CallbackOnly {
                    r matches Err(e) && e.says(
                        "OCR enabled but no `ocrEngine` callback was provided (WASM builds have no built-in OCR engine)"@,
                    )
                } else if c.ocr_server_url is Some {
                    &&& r matches Ok(choice)
                    &&& choice matches OcrChoice::Server { url, headers, hedge_delays_ms }
                    &&& url == c.ocr_server_url->0
                    &&& headers@ == c.ocr_server_headers@
                    &&& hedge_delays_ms@ == c.ocr_hedge_delays_ms@
                } else if host == OcrHost::Bundled {
                    r matches Ok(choice) && choice matches OcrChoice::BuiltIn { tessdata_path }
                        && tessdata_path == c.tessdata_path
                } else {
                    r matches Err(e) && e.says(
                        "OCR enabled but no --ocr-server-url provided and tesseract feature is disabled"@,
                    )
                }
            }),
    {
        if !self.config.ocr_enabled {
            return Ok(OcrChoice::Disabled);
        }
        if self.ocr_engine_override.is_some() {
            return Ok(OcrChoice::Provided);
        }
        if host == OcrHost::CallbackOnly {
            return Err(
                LiteParseError::Other(
                    "OCR enabled but no `ocrEngine` callback was provided (WASM builds have no built-in OCR engine)".to_string(),
                ),
            );
        }
        match &self.config.ocr_server_url {
            Some(url) => Ok(
                OcrChoice::Server {
                    url: url.clone(),
                    headers: copied_headers(&self.config.ocr_server_headers),
                    hedge_delays_ms: copied_delays(&self.config.ocr_hedge_delays_ms),
                },
            ),
            None => if host == OcrHost::Bundled {
                Ok(
                    OcrChoice::BuiltIn {
                        tessdata_path: match &self.config.tessdata_path {
                            Some(path) => Some(path.clone()),
                            None => None,
                        },
                    },
                )
            } else {
                Err(
                    LiteParseError::Other(
                        "OCR enabled but no --ocr-server-url provided and tesseract feature is disabled".to_string(),
                    ),
                )
            },
        }
    }

    /// What is taken out of these pages of a document, of so many at the most.
    /// Links and word boxes serve the markdown; word boxes are needed there even
    /// where they were not asked for.
    pub fn extract_request<'a>(
        &'a self,
        target_pages: Option<&'a Vec<u32>>,
        max_pages: usize,
    ) -> (r: ExtractRequest<'a, G>)
        ensures
            ({
                let c = self.settings();
                &&& r.target_pages == target_pages
                &&& r.max_pages == max_pages
                &&& r.extract_links == (c.extract_links && c.markdown())
                &&& match (r.glyph_resolver, self.resolver()) {
                    (Some(a), Some(b)) => *a == b,
                    (None, None) => true,
                    _ => false,
                }
                &&& r.output == (ExtractionOutputOptions {
                    extract_content_bounds: c.extract_content_bounds,
                    extract_images: c.wants_images(),
                    emit_word_boxes: c.emit_word_boxes || c.markdown(),
                    extract_text_metadata: c.extract_text_metadata,
                    extract_vector_graphics: c.extract_vector_graphics,
                    extract_annotations: c.extract_annotations,
                    extract_form_fields: c.extract_form_fields,
                    extract_structure_tree: c.extract_structure_tree,
                })
            }),
    {
        let c = &self.config;
        ExtractRequest {
            target_pages,
            max_pages,
            extract_links: c.extract_links && c.is_markdown(),
            glyph_resolver: match &self.glyph_resolver {
                Some(g) => Some(g),
                None => None,
            },
            output: ExtractionOutputOptions {
                extract_content_bounds: c.extract_content_bounds,
                extract_images: c.effective_extract_images(),
                emit_word_boxes: c.emit_word_boxes || c.is_markdown(),
                extract_text_metadata: c.extract_text_metadata,
                extract_vector_graphics: c.extract_vector_graphics,
                extract_annotations: c.extract_annotations,
                extract_form_fields: c.extract_form_fields,
                extract_structure_tree: c.extract_structure_tree,
            },
        }
    }

    /// What is taken out of a document to tell how hard its pages are to read:
    /// nothing besides their text.
    pub fn complexity_request<'a>(&'a self, target_pages: Option<&'a Vec<u32>>) -> (r:
        ExtractRequest<'a, G>)
        ensures
            r.target_pages == target_pages,
            r.max_pages == self.settings().max_pages,
            !r.extract_links,
            match (r.glyph_resolver, self.resolver()) {
                (Some(a), Some(b)) => *a == b,
                (None, None) => true,
                _ => false,
            },
            r.output == ExtractionOutputOptions::spec_nothing(),
    {
        ExtractRequest {
            target_pages,
            max_pages: self.config.max_pages,
            extract_links: false,
            glyph_resolver: match &self.glyph_resolver {
                Some(g) => Some(g),
                None => None,
            },
            output: ExtractionOutputOptions::default(),
        }
    }

    /// Which texts the options ask for.
    pub fn content_filters(&self) -> (r: ContentFilters<'_>)
        ensures
            match (r.crop_box, self.settings().crop_box) {
                (Some(a), Some(b)) => *a == b,
                (None, None) => true,
                _ => false,
            },
            r.skip_diagonal_text == self.settings().skip_diagonal_text,
    {
        ContentFilters {
            crop_box: match &self.config.crop_box {
                Some(c) => Some(c),
                None => None,
            },
            skip_diagonal_text: self.config.skip_diagonal_text,
        }
    }
}

// ── Text of the whole document ─────────────────────────────────────────

/// Whether some pages are others with their markdown put in, page by page.
pub open spec fn have_markdown(
    before: Seq<ParsedPage>,
    after: Seq<ParsedPage>,
    md: Seq<String>,
) -> bool {
    &&& after.len() == before.len()
    &&& forall|p: int|
        0 <= p < before.len() ==> if p < md.len() {
            images::page_with_markdown(before[p], #[trigger] after[p], md[p]@)
        } else {
            after[p] == before[p]
        }
}

fn put_markdown(pages: Vec<ParsedPage>, md: &Vec<String>) -> (r: Vec<ParsedPage>)
    ensures
        have_markdown(pages@, r@, md@),
{
    let ghost all = pages@;
    let mut out: Vec<ParsedPage> = Vec::new();
    for page in it: pages
        invariant
            it.seq() == all,
            out@.len() == it.index(),
            forall|p: int|
                0 <= p < out@.len() ==> if p < md@.len() {
                    images::page_with_markdown(all[p], #[trigger] out@[p], md@[p]@)
                } else {
                    out@[p] == all[p]
                },
        {
        let i: usize = out.len();
        let mut page = page;
        if i < md.len() {
            page.markdown = md[i].clone();
        }
        out.push(page);
    }
    out
}

/// Whether `pages` and `whole` are what becomes of projected pages: with the
/// markdown that `format` gives for them and for the way that figures and running
/// headers are to be shown, where markdown is given out.
pub open spec fn is_formatted<
    F: Fn(&Vec<ParsedPage>, &Vec<OutlineTarget>, ImageMode, bool) -> Vec<String>,
>(
    projected: Vec<ParsedPage>,
    outline: Vec<OutlineTarget>,
    pages: Seq<ParsedPage>,
    whole: Seq<char>,
    c: LiteParseConfig,
    format: F,
) -> bool {
    if c.markdown() {
        exists|md: Vec<String>| #[trigger]
            call_ensures(
                format,
                (&projected, &outline, c.image_mode, c.keep_headers_footers),
                md,
            ) && have_markdown(
                projected@,
                pages,
                md@,
            ) && whole == text::joined(text::texts(md@), native::page_break())
    } else {
        &&& pages == projected@
        &&& whole == text::joined(native::plain_texts(projected@), native::paragraph_break())
    }
}

fn format_pages<F: Fn(&Vec<ParsedPage>, &Vec<OutlineTarget>, ImageMode, bool) -> Vec<String>>(
    projected: Vec<ParsedPage>,
    outline: &Vec<OutlineTarget>,
    c: &LiteParseConfig,
    format: &F,
) -> (r: (Vec<ParsedPage>, String))
    requires
        forall|p: &Vec<ParsedPage>, o: &Vec<OutlineTarget>, m: ImageMode, k: bool|
            call_requires(*format, (p, o, m, k)),
    ensures
        is_formatted(projected, *outline, r.0@, r.1@, *c, *format),
{
    if c.is_markdown() {
        let md = format(&projected, outline, c.image_mode, c.keep_headers_footers);
        assert(call_ensures(
            *format,
            (&projected, outline, c.image_mode, c.keep_headers_footers),
            md,
        ));
        let whole = text::join(&md, "\n\n-----\n\n");
        (put_markdown(projected, &md), whole)
    } else {
        let whole = native::join_text(&projected);
        (projected, whole)
    }
}

/// Whether pages were projected one by one.
pub open spec fn are_projected<P: Fn(&Page) -> GridText>(
    pages: Seq<Page>,
    projected: Seq<ParsedPage>,
    grid: P,
) -> bool {
    &&& projected.len() == pages.len()
    &&& forall|p: int|
        0 <= p < projected.len() ==> stages::is_projected(pages[p], #[trigger] projected[p], grid)
}

/// Whether a formatter gives one text for each page.
pub open spec fn one_text_per_page<
    F: Fn(&Vec<ParsedPage>, &Vec<OutlineTarget>, ImageMode, bool) -> Vec<String>,
>(format: F) -> bool {
    forall|p: Vec<ParsedPage>, o: Vec<OutlineTarget>, m: ImageMode, k: bool, md: Vec<String>|
     #[trigger]
        call_ensures(format, (&p, &o, m, k), md) ==> md@.len() == p@.len()
}

/// The text of all pages: their markdown with rules between them, where markdown
/// is given out, or else their plain text with empty lines between them.
pub open spec fn joined_pages(pages: Seq<ParsedPage>, c: LiteParseConfig) -> Seq<char> {
    if c.markdown() {
        text::joined(native::markdowns(pages), native::page_break())
    } else {
        text::joined(native::plain_texts(pages), native::paragraph_break())
    }
}

/// Whether a result is what becomes of pages whose texts are known already: they
/// are projected and then formatted, and nothing else is known of the document
/// but its outline.
pub open spec fn is_parsed_from<
    P: Fn(&Page) -> GridText,
    F: Fn(&Vec<ParsedPage>, &Vec<OutlineTarget>, ImageMode, bool) -> Vec<String>,
>(
    r: ParseResult,
    pages: Seq<Page>,
    outline: Vec<OutlineTarget>,
    c: LiteParseConfig,
    grid: P,
    format: F,
) -> bool {
    &&& exists|projected: Vec<ParsedPage>|
        are_projected(pages, projected@, grid) && #[trigger] is_formatted(
            projected,
            outline,
            r.pages@,
            r.text@,
            c,
            format,
        )
    &&& r.total_pages == pages.len()
    &&& r.page_errors@.len() == 0
    &&& r.outline == outline
    &&& r.images@.len() == 0
    &&& r.screenshots@.len() == 0
    &&& r.image_error_count == 0
    &&& r.form_type is None
    &&& r.creator is None
    &&& r.producer is None
    &&& r.doc_meta is None
    &&& r.xfa_packets is None
}

impl<E, G> LiteParse<E, G> {
    /// Parses pages whose texts are known already: they are projected, and the
    /// text is given out in the form that the options ask for. What is known of
    /// the texts stays with them.
    pub fn parse_from_pages<
        P: Fn(&Page) -> GridText,
        F: Fn(&Vec<ParsedPage>, &Vec<OutlineTarget>, ImageMode, bool) -> Vec<String>,
    >(&self, pages: Vec<Page>, outline: Vec<OutlineTarget>, grid: &P, format: &F) -> (r:
        ParseResult)
        requires
            forall|p: &Page| call_requires(*grid, (p,)),
            forall|p: &Vec<ParsedPage>, o: &Vec<OutlineTarget>, m: ImageMode, k: bool|
                call_requires(*format, (p, o, m, k)),
        ensures
            is_parsed_from(r, pages@, outline, self.settings(), *grid, *format),
            r.pages@.len() == pages@.len(),
            forall|p: int|
                0 <= p < pages@.len() ==> (#[trigger] r.pages@[p]).text_items
                    == pages@[p].text_items,
            one_text_per_page(*format) ==> r.text@ == joined_pages(r.pages@, self.settings()),
    {
        let total_pages: usize = pages.len();
        let projected = stages::project(pages, grid);
        let ghost mid = projected;
        assert(are_projected(pages@, mid@, *grid));
        let (parsed, whole) = format_pages(projected, &outline, &self.config, format);
        assert forall|p: int| 0 <= p < pages@.len() implies (#[trigger] parsed@[p]).text_items
            == pages@[p].text_items by {
            assert(stages::is_projected(pages@[p], mid@[p], *grid));
        }
        let result = ParseResult {
            total_pages,
            pages: parsed,
            page_errors: Vec::new(),
            text: whole,
            outline,
            images: Vec::new(),
            screenshots: Vec::new(),
            image_error_count: 0,
            form_type: None,
            creator: None,
            producer: None,
            doc_meta: None,
            xfa_packets: None,
        };
        assert(is_formatted(
            mid,
            outline,
            result.pages@,
            result.text@,
            self.settings(),
            *format,
        ));
        proof {
            if one_text_per_page(*format) {
                composition::text_is_that_of_the_pages(
                    mid,
                    outline,
                    result.pages@,
                    result.text@,
                    self.settings(),
                    *format,
                );
            }
        }
        result
    }
}

// ── From extracted pages to a result ───────────────────────────────────

/// What was taken out of a document, text read off pictures among it.
#[derive(Debug)]
pub struct Extracted {
    /// How many pages the document has.
    pub total_pages: usize,
    pub pages: Vec<Page>,
    pub page_errors: Vec<PageError>,
    pub outline: Vec<OutlineTarget>,
    pub images: Vec<ExtractedImage>,
    pub screenshots: Vec<ScreenshotResult>,
    pub image_error_count: u32,
    /// How hard the pages are to read; empty where it was not asked for.
    pub complexity: Vec<PageComplexityStats>,
    pub form_type: Option<i32>,
    pub creator: Option<String>,
    pub producer: Option<String>,
    pub doc_meta: Option<DocumentMetadata>,
    pub xfa_packets: Option<Vec<XfaPacket>>,
}

/// An entry that says something, in contracts.
pub open spec fn spoken(s: Option<String>) -> Option<String> {
    match s {
        Some(v) => if v@.len() > 0 {
            s
        } else {
            None
        },
        None => None,
    }
}

/// An entry that says something. An empty one is as good as none.
fn spoken_of(s: Option<String>) -> (r: Option<String>)
    ensures
        r == spoken(s),
{
    match s {
        Some(v) => if v.as_str().unicode_len() > 0 {
            Some(v)
        } else {
            None
        },
        None => None,
    }
}

/// Whether pages were filtered one by one.
pub open spec fn are_filtered(
    before: Seq<Page>,
    after: Seq<Page>,
    filters: ContentFilters,
) -> bool {
    &&& after.len() == before.len()
    &&& forall|p: int|
        0 <= p < before.len() ==> stages::is_filtered(before[p], #[trigger] after[p], filters)
}

/// Whether pages were rated one by one.
pub open spec fn are_rated<L: Fn(&ParsedPage) -> LayoutComplexityStats>(
    before: Seq<ParsedPage>,
    after: Seq<ParsedPage>,
    stats: Seq<PageComplexityStats>,
    measure: L,
) -> bool {
    &&& after.len() == before.len()
    &&& forall|p: int|
        0 <= p < before.len() ==> stages::is_rated(before, stats, p, #[trigger] after[p], measure)
}

/// Whether some pages are others with their blocks put in, page by page.
pub open spec fn have_blocks(
    before: Seq<ParsedPage>,
    after: Seq<ParsedPage>,
    found: Seq<Vec<LayoutBlock>>,
) -> bool {
    &&& after.len() == before.len()
    &&& forall|p: int|
        0 <= p < before.len() ==> #[trigger] after[p] == (if p < found.len() {
            ParsedPage { blocks: Some(found[p]), ..before[p] }
        } else {
            before[p]
        })
}

fn put_blocks(pages: Vec<ParsedPage>, found: Vec<Vec<LayoutBlock>>) -> (r: Vec<ParsedPage>)
    ensures
        have_blocks(pages@, r@, found@),
{
    let ghost blocks = found@;
    let mut out = pages;
    let mut i: usize = 0;
    for list in it: found
        invariant
            it.seq() == blocks,
            out@.len() == pages@.len(),
            i == if it.index() < pages@.len() {
                it.index() as int
            } else {
                pages@.len() as int
            },
            forall|p: int|
                0 <= p < pages@.len() ==> #[trigger] out@[p] == (if p < i {
                    ParsedPage { blocks: Some(blocks[p]), ..pages@[p] }
                } else {
                    pages@[p]
                }),
        {
        if i < out.len() {
            out[i].blocks = Some(list);
            i += 1;
        }
    }
    out
}

/// Whether pages have the blocks that `lay` finds on the rated pages, where blocks
/// are given out.
pub open spec fn is_laid_out<
    K: Fn(&Vec<ParsedPage>, &Vec<OutlineTarget>, ImageMode, bool) -> Vec<Vec<LayoutBlock>>,
>(
    rated: Vec<ParsedPage>,
    outline: Vec<OutlineTarget>,
    written: Seq<ParsedPage>,
    out: Seq<ParsedPage>,
    c: LiteParseConfig,
    lay: K,
) -> bool {
    if c.extract_blocks {
        exists|found: Vec<Vec<LayoutBlock>>| #[trigger]
            call_ensures(
                lay,
                (&rated, &outline, c.image_mode, c.keep_headers_footers),
                found,
            ) && have_blocks(written, out, found@)
    } else {
        out == written
    }
}

/// Whether the filters are those that the options ask for.
pub open spec fn filters_of(c: LiteParseConfig, f: ContentFilters) -> bool {
    &&& match (f.crop_box, c.crop_box) {
        (Some(a), Some(b)) => *a == b,
        (None, None) => true,
        _ => false,
    }
    &&& f.skip_diagonal_text == c.skip_diagonal_text
}

/// Whether some pages and a text are what the steps of a parse, one after the
/// other, make of some pages: filters, projection, rating, formatting, blocks.
pub open spec fn goes_through_stages<
    P: Fn(&Page) -> GridText,
    L: Fn(&ParsedPage) -> LayoutComplexityStats,
    F: Fn(&Vec<ParsedPage>, &Vec<OutlineTarget>, ImageMode, bool) -> Vec<String>,
    K: Fn(&Vec<ParsedPage>, &Vec<OutlineTarget>, ImageMode, bool) -> Vec<Vec<LayoutBlock>>,
>(
    pages: Seq<Page>,
    stats: Seq<PageComplexityStats>,
    outline: Vec<OutlineTarget>,
    out: Seq<ParsedPage>,
    whole: Seq<char>,
    c: LiteParseConfig,
    grid: P,
    measure: L,
    format: F,
    lay: K,
) -> bool {
    exists|
        filters: ContentFilters,
        filtered: Seq<Page>,
        projected: Seq<ParsedPage>,
        rated: Vec<ParsedPage>,
        written: Seq<ParsedPage>,
    |
        {
            &&& filters_of(c, filters)
            &&& #[trigger] are_filtered(pages, filtered, filters)
            &&& #[trigger] are_projected(filtered, projected, grid)
            &&& #[trigger] are_rated(projected, rated@, stats, measure)
            &&& #[trigger] is_formatted(rated, outline, written, whole, c, format)
            &&& is_laid_out(rated, outline, written, out, c, lay)
        }
}

/// Whether a result is what becomes of what was taken out of a document.
pub open spec fn is_finished<
    P: Fn(&Page) -> GridText,
    L: Fn(&ParsedPage) -> LayoutComplexityStats,
    F: Fn(&Vec<ParsedPage>, &Vec<OutlineTarget>, ImageMode, bool) -> Vec<String>,
    K: Fn(&Vec<ParsedPage>, &Vec<OutlineTarget>, ImageMode, bool) -> Vec<Vec<LayoutBlock>>,
>(
    r: ParseResult,
    extracted: Extracted,
    c: LiteParseConfig,
    grid: P,
    measure: L,
    format: F,
    lay: K,
) -> bool {
    exists|first: ParseResult|
        {
            &&& #[trigger] native::is_canonical(first, r, c.markdown())
            &&& goes_through_stages(
                extracted.pages@,
                extracted.complexity@,
                extracted.outline,
                first.pages@,
                first.text@,
                c,
                grid,
                measure,
                format,
                lay,
            )
            &&& first.total_pages == extracted.total_pages
            &&& first.page_errors == extracted.page_errors
            &&& first.outline == extracted.outline
            &&& first.images == extracted.images
            &&& first.screenshots == extracted.screenshots
            &&& first.image_error_count == extracted.image_error_count
            &&& first.form_type == extracted.form_type
            &&& first.creator == spoken(extracted.creator)
            &&& first.producer == spoken(extracted.producer)
            &&& first.doc_meta == extracted.doc_meta
            &&& first.xfa_packets == extracted.xfa_packets
        }
}

impl<E, G> LiteParse<E, G> {
    /// The result of a parse from what was taken out of the document: exactly
    /// the steps of [`crate::stages`], one after the other, and then the
    /// renaming of images that occur more than once.
    pub fn finish_parse<
        P: Fn(&Page) -> GridText,
        L: Fn(&ParsedPage) -> LayoutComplexityStats,
        F: Fn(&Vec<ParsedPage>, &Vec<OutlineTarget>, ImageMode, bool) -> Vec<String>,
        K: Fn(&Vec<ParsedPage>, &Vec<OutlineTarget>, ImageMode, bool) -> Vec<Vec<LayoutBlock>>,
    >(
        &self,
        extracted: Extracted,
        grid: &P,
        measure: &L,
        format: &F,
        lay: &K,
    ) -> (r: ParseResult)
        requires
            forall|p: &Page| call_requires(*grid, (p,)),
            forall|p: &ParsedPage| call_requires(*measure, (p,)),
            forall|p: &Vec<ParsedPage>, o: &Vec<OutlineTarget>, m: ImageMode, k: bool|
                call_requires(*format, (p, o, m, k)),
            forall|p: &Vec<ParsedPage>, o: &Vec<OutlineTarget>, m: ImageMode, k: bool|
                call_requires(*lay, (p, o, m, k)),
        ensures
            is_finished(r, extracted, self.settings(), *grid, *measure, *format, *lay),
    {
        let ghost given = extracted;
        let Extracted {
            total_pages,
            pages,
            page_errors,
            outline,
            images,
            screenshots,
            image_error_count,
            complexity,
            form_type,
            creator,
            producer,
            doc_meta,
            xfa_packets,
        } = extracted;
        let mut pages = pages;
        let filters = self.content_filters();
        stages::apply_content_filters(&mut pages, &filters);
        let ghost filtered = pages@;
        assert(are_filtered(given.pages@, filtered, filters));
        let projected = stages::project(pages, grid);
        let ghost laid = projected@;
        assert(are_projected(filtered, laid, *grid));
        let rated = stages::attach_complexity(projected, &complexity, measure);
        let ghost ranked = rated;
        assert(are_rated(laid, ranked@, given.complexity@, *measure));
        let found = if self.config.extract_blocks {
            Some(lay(&rated, &outline, self.config.image_mode, self.config.keep_headers_footers))
        } else {
            None
        };
        let (written, whole) = format_pages(rated, &outline, &self.config, format);
        let ghost shown = written@;
        assert(is_formatted(ranked, given.outline, shown, whole@, self.settings(), *format));
        let parsed = match found {
            Some(found) => {
                assert(call_ensures(
                    *lay,
                    (
                        &ranked,
                        &given.outline,
                        self.settings().image_mode,
                        self.settings().keep_headers_footers,
                    ),
                    found,
                ));
                put_blocks(written, found)
            },
            None => written,
        };
        assert(is_laid_out(ranked, given.outline, shown, parsed@, self.settings(), *lay));
        assert(goes_through_stages(
            given.pages@,
            given.complexity@,
            given.outline,
            parsed@,
            whole@,
            self.settings(),
            *grid,
            *measure,
            *format,
            *lay,
        ));
        let first = ParseResult {
            total_pages,
            pages: parsed,
            page_errors,
            text: whole,
            outline,
            images,
            screenshots,
            image_error_count,
            form_type,
            creator: spoken_of(creator),
            producer: spoken_of(producer),
            doc_meta,
            xfa_packets,
        };
        let ghost before = first;
        let result = native::canonicalize_result(first, self.config.is_markdown());
        assert(native::is_canonical(before, result, self.settings().markdown()));
        result
    }
}

}
