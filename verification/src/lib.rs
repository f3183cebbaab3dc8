//! The verified core of a small OpenGL text editor: the line buffer and its
//! cursor, RGBA colours, glyph bitmap expansion and a few pure helpers used
//! while setting up the renderer.

pub mod color;
pub mod text;
pub mod editor;
pub mod glyph;
pub mod laws;
pub mod platform;
pub mod shader;
