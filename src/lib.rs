//! Round-trip between EPUB packages and an editable tree of Markdown,
//! YAML and assets: the book model, its codecs and its editing operations.

pub mod assemble;
pub mod asset_embed;
pub mod asset_manage;
pub mod chapter_manage;
pub mod chapter_org;
pub mod content_edit;
pub mod dates;
pub mod epub;
pub mod epub_writer;
pub mod extract;
pub mod error;
pub mod frontmatter;
pub mod html_to_md;
pub mod link_check;
pub mod meta_edit;
pub mod navigation;
pub mod numfmt;
pub mod opf;
pub mod opf_writer;
pub mod paths;
pub mod patterns;
pub mod profile;
pub mod reader;
pub mod strmap;
pub mod summary;
pub mod text;
pub mod toc_edit;
pub mod util;
pub mod validate;
pub mod writer;
pub mod xml;
pub mod zip_utils;
