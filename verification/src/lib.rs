//! The core of a text-editing widget: the text and its truncation, the
//! buffer that is handed to shaping, the editor with cursor, selection and
//! undo history, the layout rules, and the compositing of rasterised glyphs
//! onto a pixel surface. Shaping and glyph rasterisation are the work of
//! `cosmic_text`; the host draws the surface that the core fills.

pub mod attrs;
pub mod buffer;
pub mod color;
pub mod config;
pub mod cursor;
pub mod edit;
pub mod editor;
pub mod flat;
pub mod history;
pub mod layout;
pub mod line;
pub mod mask;
pub mod pointer;
pub mod raster;
pub mod render;
pub mod text;
pub mod widget;
