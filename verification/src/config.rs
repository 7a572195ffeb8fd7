//! What a caller can ask of a parse.
use vstd::prelude::*;

verus! {

/// The form in which a document's text is given out.
#[derive(Clone, Copy, PartialEq, Eq, Structural, Debug)]
pub enum OutputFormat {
    Json,
    Text,
    Markdown,
}

/// Whether and how figures appear in markdown.
#[derive(Clone, Copy, PartialEq, Eq, Structural, Debug)]
pub enum ImageMode {
    Off,
    Placeholder,
    Embed,
}

/// What to cut off a page on each side, in millionths of its width or height.
#[derive(Clone, Copy, PartialEq, Eq, Structural, Debug)]
pub struct CropBox {
    pub top: i64,
    pub bottom: i64,
    pub left: i64,
    pub right: i64,
}

/// By how much the content of a page is turned, so that it can be turned back.
#[derive(Debug, Clone, Copy, PartialEq, Eq, Structural)]
pub struct PageOrientationCorrection {
    /// Counted from 1.
    pub page: u32,
    /// In degrees.
    pub angle: i32,
}

/// A header that goes with each request to a server.
#[derive(Debug)]
pub struct Header {
    pub name: String,
    pub value: String,
}

impl Clone for Header {
    fn clone(&self) -> (r: Header)
        ensures
            r == *self,
    {
        Header { name: self.name.clone(), value: self.value.clone() }
    }
}

/// The options of a parser.
#[derive(Debug, Clone)]
pub struct LiteParseConfig {
    pub ocr_enabled: bool,
    pub ocr_server_url: Option<String>,
    pub ocr_server_headers: Vec<Header>,
    /// How long to wait, in milliseconds, before each further request for the
    /// same picture is sent to a server that has not answered.
    pub ocr_hedge_delays_ms: Vec<u64>,
    pub ocr_language: String,
    pub tessdata_path: Option<String>,
    pub ocr_failure_fatal: bool,
    pub num_workers: usize,
    pub max_pages: usize,
    /// Such as `1-5,10`.
    pub target_pages: Option<String>,
    pub output_format: OutputFormat,
    pub image_mode: ImageMode,
    pub extract_images: bool,
    pub image_output_dir: Option<String>,
    pub extract_links: bool,
    pub emit_word_boxes: bool,
    pub extract_text_metadata: bool,
    pub extract_vector_graphics: bool,
    pub extract_annotations: bool,
    pub extract_form_fields: bool,
    pub extract_structure_tree: bool,
    pub extract_content_bounds: bool,
    pub extract_xfa_packets: bool,
    pub extract_document_metadata: bool,
    pub include_complexity: bool,
    /// Whether the blocks of each page are given out.
    pub extract_blocks: bool,
    /// Whether pictures of the pages are given out.
    pub extract_screenshots: bool,
    /// Whether a page that cannot be rendered is passed over.
    pub continue_on_page_error: bool,
    /// The pages that are turned upright wherever a PDF is opened.
    pub page_orientation_corrections: Vec<PageOrientationCorrection>,
    pub keep_headers_footers: bool,
    pub crop_box: Option<CropBox>,
    pub skip_diagonal_text: bool,
    /// Whether office documents are read without a conversion.
    pub office_native: bool,
    /// In trillionths of a dot per inch.
    pub dpi: u64,
    pub detect_screenshot_rects: bool,
    pub render_form_fields: bool,
    pub password: Option<String>,
    pub quiet: bool,
}

impl LiteParseConfig {
    /// Whether images are taken out of a document, in contracts.
    pub open spec fn wants_images(self) -> bool {
        self.extract_images || self.image_mode == ImageMode::Embed
    }

    /// Whether images are taken out of a document: on request, and always where
    /// they are embedded in the markdown.
    pub fn effective_extract_images(&self) -> (r: bool)
        ensures
            r == self.wants_images(),
    {
        self.extract_images || match self.image_mode {
            ImageMode::Embed => true,
            _ => false,
        }
    }

    /// Whether the text is given out as markdown, in contracts.
    pub open spec fn markdown(self) -> bool {
        self.output_format == OutputFormat::Markdown
    }

    /// Whether the text is given out as markdown.
    pub fn is_markdown(&self) -> (r: bool)
        ensures
            r == self.markdown(),
    {
        match self.output_format {
            OutputFormat::Markdown => true,
            _ => false,
        }
    }

    /// Whether figures stand among the blocks, in contracts.
    pub open spec fn figures(self) -> bool {
        self.image_mode != ImageMode::Off
    }

    /// Whether figures stand among the blocks.
    pub fn wants_figures(&self) -> (r: bool)
        ensures
            r == self.figures(),
    {
        match self.image_mode {
            ImageMode::Off => false,
            _ => true,
        }
    }

    /// Whether nothing beyond a plain parse is asked for.
    pub open spec fn plain(self) -> bool {
        &&& self.target_pages is None
        &&& !self.extract_images
        &&& self.image_mode == ImageMode::Placeholder
        &&& self.image_output_dir is None
        &&& !self.extract_text_metadata
        &&& !self.extract_vector_graphics
        &&& !self.extract_annotations
        &&& !self.extract_form_fields
        &&& !self.extract_structure_tree
        &&& !self.extract_content_bounds
        &&& !self.extract_xfa_packets
        &&& !self.extract_document_metadata
        &&& !self.include_complexity
        &&& !self.extract_blocks
        &&& !self.extract_screenshots
        &&& !self.continue_on_page_error
        &&& self.page_orientation_corrections@.len() == 0
        &&& !self.emit_word_boxes
        &&& !self.keep_headers_footers
        &&& self.crop_box is None
        &&& !self.skip_diagonal_text
        &&& !self.detect_screenshot_rects
        &&& !self.render_form_fields
        &&& self.password is None
    }
}

impl Default for LiteParseConfig {
    /// A plain parse at 150 dots per inch.
    fn default() -> (r: LiteParseConfig)
        ensures
            r.plain(),
            r.ocr_enabled,
            r.ocr_server_url is None,
            r.ocr_server_headers@.len() == 0,
            r.ocr_hedge_delays_ms@.len() == 0,
            r.ocr_language@ == "eng"@,
            r.tessdata_path is None,
            !r.ocr_failure_fatal,
            r.num_workers == 4,
            r.max_pages == 1000,
            r.output_format == OutputFormat::Json,
            r.extract_links,
            r.office_native,
            r.dpi == 150_000_000_000_000,
            !r.quiet,
    {
        LiteParseConfig {
            ocr_enabled: true,
            ocr_server_url: None,
            ocr_server_headers: Vec::new(),
            ocr_hedge_delays_ms: Vec::new(),
            ocr_language: "eng".to_string(),
            tessdata_path: None,
            ocr_failure_fatal: false,
            num_workers: 4,
            max_pages: 1000,
            target_pages: None,
            output_format: OutputFormat::Json,
            image_mode: ImageMode::Placeholder,
            extract_images: false,
            image_output_dir: None,
            extract_links: true,
            emit_word_boxes: false,
            extract_text_metadata: false,
            extract_vector_graphics: false,
            extract_annotations: false,
            extract_form_fields: false,
            extract_structure_tree: false,
            extract_content_bounds: false,
            extract_xfa_packets: false,
            extract_document_metadata: false,
            include_complexity: false,
            extract_blocks: false,
            extract_screenshots: false,
            continue_on_page_error: false,
            page_orientation_corrections: Vec::new(),
            keep_headers_footers: false,
            crop_box: None,
            skip_diagonal_text: false,
            office_native: true,
            dpi: 150_000_000_000_000,
            detect_screenshot_rects: false,
            render_form_fields: false,
            password: None,
            quiet: false,
        }
    }
}

}
