//! Document engine of a modal text editor: a versioned text buffer with
//! undo/redo, selections and their transformation through edits, cursor
//! motions, the modal cursor with its yank/paste registers, the coalescing
//! step of the highlight pipeline and the completion request arbitration.

pub mod buffer;
pub mod color;
pub mod completion;
pub mod cursor;
pub mod delta;
pub mod editor;
pub mod highlight;
pub mod movement;
pub mod register;
pub mod selection;
pub mod text;

pub use buffer::{Buffer, EditError, EditType};
pub use color::{hex_to_color, ColorError, Rgba};
pub use completion::{CompletionAction, CompletionData, CompletionStatus};
pub use cursor::{Cursor, CursorMode, Mode};
pub use delta::EditDelta;
pub use editor::{DeleteKind, LapceCommand, LapceEditorViewData};
pub use highlight::{HighlightEvent, StyleSpan, StyleUpdate, UpdateEvent};
pub use movement::{move_offset, LinePosition, Movement};
pub use register::{Register, RegisterData, VisualMode, DELETE_RING_LEN};
pub use selection::{SelRegion, Selection};
