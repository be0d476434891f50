//! A box-model layout library for a tree of styled document nodes.
//!
//! Given a document tree, a stylesheet, and an available container width,
//! the library classifies each styled node into a box (block, inline,
//! inline-block, or a generated anonymous block), resolves widths and
//! margins against the containing block, stacks children vertically,
//! wraps inline runs into lines, and finally converts relative offsets
//! into absolute document coordinates.

pub mod css;
pub mod dom;
pub mod html;
pub mod strutil;
pub mod style;
pub mod layout;
pub mod paint;
