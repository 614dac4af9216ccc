//! Content extraction from HTML and PDF
pub mod html;
pub mod pdf;

pub use html::{extract_html, jsonld_scripts};
pub use pdf::{extract_pdf, try_extract_pdf, PdfPlan};
