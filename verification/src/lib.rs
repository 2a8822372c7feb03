//! Cell grid, frame decoder and renderer for panes that mirror a remote
//! terminal, and the rules by which local strays are adopted by their host.

pub mod text;
pub mod escape;
pub mod notation;
pub mod frames;
pub mod grid;
pub mod laws;
pub mod decoding;
pub mod render;
pub mod screen;
pub mod adopt;
pub mod adopt_laws;
