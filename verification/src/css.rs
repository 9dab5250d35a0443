//! The compiler's steps in one place: gathering the class names of a
//! document, creating their stylesheet, and minifying it.

pub use crate::document::get_classes;
pub use crate::minify::minify;
pub use crate::stylesheet::create_stylesheet;
