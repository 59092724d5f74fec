//! The core of a small terminal-style text editor: turning raw key events
//! into editing commands, and turning a text buffer plus a selection into
//! styled lines in which the selected cells are shown in reverse video.
//!
//! - [`keys`], [`command`], [`input`]: key events, editing commands, and the
//!   translator from the one to the other, which tracks the modifiers held.
//! - [`session`]: what is to be done about each event the host reports.
//! - [`text`], [`cluster`], [`selection`]: lines, grapheme clusters with
//!   their display widths, and the selection in display cells.
//! - [`render`]: the renderer, from text and selection to styled lines.
//! - [`run_facts`], [`selection_facts`]: what is proved of every rendering.
//! - [`unicode`]: what is taken on trust from the Unicode crates.

pub mod keys;
pub mod command;
pub mod input;
pub mod session;
pub mod unicode;
pub mod text;
pub mod cluster;
pub mod selection;
pub mod render;
pub mod run_facts;
pub mod selection_facts;
