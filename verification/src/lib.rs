//! Geometry and assembly of a document parser.

pub mod blocks;
pub mod columns;
pub mod composition;
pub mod config;
pub mod document;
pub mod document_laws;
pub mod docx_images;
pub mod docx_layout;
pub mod docx_layout_laws;
pub mod draw_command;
pub mod flow;
pub mod geometry;
pub mod images;
pub mod media;
pub mod media_laws;
pub mod native;
pub mod native_laws;
pub mod page_object;
pub mod parser;
pub mod pptx_laws;
pub mod pptx_layout;
pub mod pptx_paint;
pub mod pptx_shapes;
pub mod pptx_style;
pub mod pptx_style_laws;
pub mod pptx_table;
pub mod pptx_text;
pub mod raster;
pub mod raster_laws;
pub mod raw_text;
pub mod raw_text_laws;
pub mod screenshots;
pub mod stages;
pub mod stages_laws;
pub mod text;
pub mod text_laws;
pub mod types;
pub mod units;
pub mod units_laws;
