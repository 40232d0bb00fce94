//! Render localized transactional emails from markdown-authored copy.

pub mod catalog;
pub mod css;
pub mod escape;
pub mod markdown;
pub mod render;
pub mod substitute;
pub mod vars;
pub mod text;

pub use catalog::{Catalog, Json};
pub use css::{inline_css, InlineCssError};
pub use escape::html_escape;
pub use markdown::{markdown_to_html, markdown_to_text};
pub use render::{render, Cta, EmailTemplate, RenderedEmail};
pub use substitute::substitute;
pub use vars::Vars;
