//! A minimal HTML document composition helper: a fixed boilerplate
//! skeleton (doctype, charset, viewport and compatibility meta tags)
//! around a title, an ordered sequence of head fragments, and an
//! optional body fragment.

pub mod document;
pub mod laws;
pub mod markup;

pub use document::Boilerplate;
pub use markup::Fragment;
