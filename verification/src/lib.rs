//! Editing model for the Rote text editor: ropes, cursors and the buffer
//! registry, plus the pure parts of syntax highlighting, key-chord
//! normalization, message framing and the file picker.

pub mod buffer;
pub mod chars;
pub mod chord;
pub mod cursor;
pub mod editor;
pub mod gutter;
pub mod keys;
pub mod laws;
pub mod layout;
pub mod lsp;
pub mod motion;
pub mod picker;
pub mod plugins;
pub mod rope;
pub mod strings;
pub mod syntax;
pub mod text;
pub mod ts;

pub use buffer::{Buffer, BufferError, BufferId};
pub use cursor::Cursor;
pub use editor::Editor;
pub use syntax::{HighlightKind, HighlightSpan, Highlighter};

// Re-exported so callers can name the rope type when mapping between rope
// char offsets and screen-space text layout.
pub use ropey::Rope;
