//! Rendering of word-processor documents as stable HTML for a static site.

pub mod attr_list;
pub mod balance;
pub mod config;
pub mod decimal;
pub mod escape;
pub mod from_web_pub;
pub mod gdoc_to_html;
pub mod gdocs_site;
pub mod geometry;
pub mod html;
pub mod hugo_site;
pub mod image_rewriter;
pub mod lists;
pub mod markup;
pub mod model;
pub mod plain;
pub mod publish;
pub mod shortcode;
pub mod site;
pub mod spans;
pub mod text;
pub mod tweaks;
