//! A verified model of the editor's read-only file viewer: the window's tabs,
//! the keybinding and mode registries it installs into, and the viewer logic
//! that opens files read-only and retires earlier glances.
pub mod buffer;
pub mod editor;
pub mod file_viewer;
pub mod keys;
pub mod modes;
pub mod path_name;
pub mod search;
pub mod window;

pub use buffer::{Buffer, BufferId, LoadedFile, ViewMode};
pub use editor::{Editor, StatusMessage};
pub use file_viewer::VIEWER_MODE;
pub use keys::{Action, KeyCode, KeyContext, KeyModifiers};
pub use modes::BufferMode;
pub use path_name::display_name_of;
pub use window::{CloseError, Focus, Window};
