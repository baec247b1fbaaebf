//! A verified terminal-emulator core.
//!
//! The crate models the screen of a character terminal: a dense cell grid,
//! the cursor and mode state driven by an ECMA-48 escape-sequence parser,
//! a binary-split pane layout, and the shelf-packed glyph atlas used by a
//! cell renderer.  Host concerns (the pseudoterminal, the window, the GPU)
//! stay outside; the crate works on plain values and proves its invariants.

pub mod atlas;
pub mod explorer;
pub mod grid;
pub mod pane;
pub mod parser;
pub mod renderer;
pub mod terminal;
