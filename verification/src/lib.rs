//! An atomic CSS compiler: it turns the utility class names that a document
//! uses into a small stylesheet, and minifies the result.

pub mod classes;
pub mod css;
pub mod document;
pub mod export;
pub mod listing;
pub mod minify;
pub mod number;
pub mod order;
pub mod rule;
pub mod stylesheet;
pub mod tables;
pub mod text;
pub mod token;
