//! What a parse takes in and gives out: pages, their texts, and what was found
//! beside the texts.
use crate::blocks::Block;
use crate::geometry::Rect;
use crate::units::{Angle, Pt};
use vstd::prelude::*;

verus! {

/// One word of a text item and its box.
#[derive(Debug, Clone)]
pub struct WordBox {
    pub text: String,
    pub x: Pt,
    pub y: Pt,
    pub width: Pt,
    pub height: Pt,
}

/// A run of text and its box, with the origin at the page's top-left corner.
#[derive(Debug, Clone)]
pub struct TextItem {
    pub text: String,
    pub x: Pt,
    pub y: Pt,
    pub width: Pt,
    pub height: Pt,
    pub rotation: Angle,
    pub font_name: Option<String>,
    pub font_size: Option<Pt>,
    pub font_height: Option<Pt>,
    pub font_ascent: Option<Pt>,
    /// Negative below the baseline.
    pub font_descent: Option<Pt>,
    pub font_weight: Option<i32>,
    pub text_width: Option<Pt>,
    pub font_is_buggy: bool,
    pub mcid: Option<i32>,
    pub fill_color: Option<String>,
    pub stroke_color: Option<String>,
    pub char_codes: Vec<u32>,
    /// Whether the last glyph is a space that stands in no content stream.
    pub trailing_space_generated: bool,
    pub strike: bool,
    pub link: Option<String>,
    pub words: Vec<WordBox>,
}

impl Default for TextItem {
    /// An empty text at the origin.
    fn default() -> (r: TextItem)
        ensures
            r.is_blank_item(),
    {
        TextItem {
            text: String::new(),
            x: Pt::zero(),
            y: Pt::zero(),
            width: Pt::zero(),
            height: Pt::zero(),
            rotation: Angle { units: 0 },
            font_name: None,
            font_size: None,
            font_height: None,
            font_ascent: None,
            font_descent: None,
            font_weight: None,
            text_width: None,
            font_is_buggy: false,
            mcid: None,
            fill_color: None,
            stroke_color: None,
            char_codes: Vec::new(),
            trailing_space_generated: false,
            strike: false,
            link: None,
            words: Vec::new(),
        }
    }
}

impl TextItem {
    /// An empty text at the origin, of which nothing else is known.
    pub open spec fn is_blank_item(self) -> bool {
        &&& self.text@ == Seq::<char>::empty()
        &&& self.area() == (Rect {
            x: Pt::spec_zero(),
            y: Pt::spec_zero(),
            width: Pt::spec_zero(),
            height: Pt::spec_zero(),
        })
        &&& self.rotation.units == 0
        &&& self.font_name is None
        &&& self.font_size is None
        &&& self.font_height is None
        &&& self.font_ascent is None
        &&& self.font_descent is None
        &&& self.font_weight is None
        &&& self.text_width is None
        &&& !self.font_is_buggy
        &&& self.mcid is None
        &&& self.fill_color is None
        &&& self.stroke_color is None
        &&& self.char_codes@.len() == 0
        &&& !self.trailing_space_generated
        &&& !self.strike
        &&& self.link is None
        &&& self.words@.len() == 0
    }

    /// The item's box, in contracts.
    pub open spec fn area(self) -> Rect {
        Rect { x: self.x, y: self.y, width: self.width, height: self.height }
    }

    /// The item's box.
    pub fn bounds(&self) -> (r: Rect)
        ensures
            r == self.area(),
    {
        Rect { x: self.x, y: self.y, width: self.width, height: self.height }
    }
}

/// One entry of the document outline.
#[derive(Debug)]
pub struct OutlineTarget {
    /// Counted from 1.
    pub level: u8,
    pub title: String,
    /// Counted from 0.
    pub page_index: i32,
    /// Height above the bottom of the page, where it is known.
    pub y_pdf: Option<Pt>,
}

impl Clone for OutlineTarget {
    fn clone(&self) -> (r: OutlineTarget)
        ensures
            r == *self,
    {
        OutlineTarget {
            level: self.level,
            title: self.title.clone(),
            page_index: self.page_index,
            y_pdf: self.y_pdf,
        }
    }
}

/// An annotation found on a page.
#[derive(Debug, Clone)]
pub struct DocumentAnnotation {
    pub subtype: String,
    pub contents: Option<String>,
    pub created: Option<String>,
    pub modified: Option<String>,
    pub title: Option<String>,
    pub rect: Option<Rect>,
    /// One box per line, where there is more than one.
    pub quadpoint_rects: Vec<Rect>,
    pub uri: Option<String>,
}

/// An image taken out of a document.
#[derive(Debug, Clone)]
pub struct ExtractedImage {
    pub id: String,
    pub name: String,
    /// Where it was written to.
    pub path: Option<String>,
    pub page: u32,
    pub bbox: Rect,
    pub width: u32,
    pub height: u32,
    pub rotation: Angle,
    pub format: String,
    /// The id of an earlier image with the same bytes.
    pub duplicate_of: Option<String>,
    pub bytes: Vec<u8>,
}

/// How hard the layout of a page is.
#[derive(Debug, Clone, Copy, PartialEq, Eq, Structural)]
pub struct LayoutComplexityStats {
    pub columns: usize,
    pub tables: usize,
    pub is_complex: bool,
}

/// How hard a page is to read.
#[derive(Debug, Clone, Copy, PartialEq, Eq, Structural)]
pub struct PageComplexityStats {
    pub page_number: usize,
    pub needs_ocr: bool,
    pub layout: Option<LayoutComplexityStats>,
}

/// What was found on a page beside its texts and annotations. An entry is the
/// number by which the reader of the document knows it; a parse hands it on as it
/// came.
#[derive(Debug, Clone)]
pub struct PageExtras {
    pub graphics: Vec<usize>,
    /// `None` where vector graphics were not asked for.
    pub vector_graphics: Option<Vec<usize>>,
    pub struct_nodes: Vec<usize>,
    pub image_refs: Vec<usize>,
    /// `None` where form fields were not asked for.
    pub form_fields: Option<Vec<usize>>,
    /// `None` where the structure tree was not asked for.
    pub structure_tree: Option<usize>,
}

impl PageExtras {
    /// Whether there is nothing.
    pub open spec fn nothing(self) -> bool {
        &&& self.graphics@.len() == 0
        &&& self.vector_graphics is None
        &&& self.struct_nodes@.len() == 0
        &&& self.image_refs@.len() == 0
        &&& self.form_fields is None
        &&& self.structure_tree is None
    }
}

impl Default for PageExtras {
    /// Nothing.
    fn default() -> (r: PageExtras)
        ensures
            r.nothing(),
    {
        PageExtras {
            graphics: Vec::new(),
            vector_graphics: None,
            struct_nodes: Vec::new(),
            image_refs: Vec::new(),
            form_fields: None,
            structure_tree: None,
        }
    }
}

/// A page whose texts are known, not yet laid out as a text of its own.
#[derive(Debug, Clone)]
pub struct Page {
    /// Counted from 1.
    pub page_number: usize,
    pub page_width: Pt,
    pub page_height: Pt,
    pub content_bounds: Option<Rect>,
    pub text_items: Vec<TextItem>,
    /// `None` where annotations were not asked for.
    pub annotations: Option<Vec<DocumentAnnotation>>,
    pub extras: PageExtras,
}

/// A block of a page and where it stands on it.
#[derive(Debug, Clone)]
pub struct LayoutBlock {
    pub block: Block,
    pub bbox: Option<Rect>,
}

/// A parsed page.
#[derive(Debug, Clone)]
pub struct ParsedPage {
    /// Counted from 1.
    pub page_number: usize,
    pub page_width: Pt,
    pub page_height: Pt,
    pub content_bounds: Option<Rect>,
    pub text: String,
    pub markdown: String,
    pub text_items: Vec<TextItem>,
    /// The lines of the page's text grid.
    pub projected_lines: Vec<String>,
    /// The regions that the lines stand in, by the number of the grid.
    pub regions: Vec<usize>,
    /// The figures among the lines, by the number of the grid.
    pub figures: Vec<usize>,
    pub complexity: Option<PageComplexityStats>,
    /// `None` where blocks were not asked for.
    pub blocks: Option<Vec<LayoutBlock>>,
    pub annotations: Option<Vec<DocumentAnnotation>>,
    pub extras: PageExtras,
}

/// Why a page could not be taken out of a document.
#[derive(Debug, Clone)]
pub struct PageError {
    /// Counted from 1.
    pub page_number: usize,
    pub message: String,
}

/// A solid box found in a rendered page.
#[derive(Debug, Clone, Copy, PartialEq, Eq, Structural)]
pub struct ScreenshotRect {
    pub rect: Rect,
    pub color: u32,
}

/// Facts on where a document comes from.
#[derive(Debug, Clone)]
pub struct DocumentMetadata {
    /// 14 for version 1.4.
    pub file_version: Option<i32>,
    pub is_encrypted: Option<bool>,
    pub signature_count: Option<u32>,
    pub raw_file_size: Option<u64>,
}

/// One raw packet of a form.
#[derive(Debug, Clone)]
pub struct XfaPacket {
    /// Counted from 0.
    pub index: u32,
    pub name: Option<String>,
    /// In bytes; 0 where there is no content.
    pub content_length: u32,
    pub content: Option<String>,
}

}
