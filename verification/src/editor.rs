//! The editor: one window, the keybinding resolver, the mode registry and
//! the status bar message.
use vstd::prelude::*;

use crate::buffer::{Buffer, BufferId, ViewMode};
use crate::keys::{KeybindingResolver, ResolverView};
use crate::modes::{ModeRegistry, ModeView};
use crate::window::{Window, WindowView};

verus! {

/// A message for the status bar, by meaning; the caller words it.
pub enum StatusMessage {
    /// A file was opened in the viewer.
    ViewerOpened { name: String },
}

pub enum StatusView {
    ViewerOpened(Seq<char>),
}

impl View for StatusMessage {
    type V = StatusView;

    open spec fn view(&self) -> StatusView {
        match self {
            StatusMessage::ViewerOpened { name } => StatusView::ViewerOpened(name@),
        }
    }
}

pub struct Editor {
    pub window: Window,
    pub keybindings: KeybindingResolver,
    pub mode_registry: ModeRegistry,
    pub status_message: Option<StatusMessage>,
}

pub struct EditorView {
    pub window: WindowView,
    pub keybindings: ResolverView,
    pub modes: Seq<ModeView>,
    pub status: Option<StatusView>,
}

impl View for Editor {
    type V = EditorView;

    open spec fn view(&self) -> EditorView {
        EditorView {
            window: self.window@,
            keybindings: self.keybindings@,
            modes: self.mode_registry@,
            status: match self.status_message {
                Some(m) => Some(m@),
                None => None,
            },
        }
    }
}

impl EditorView {
    pub open spec fn wf(self) -> bool {
        self.window.wf()
    }
}

impl Editor {
    /// An editor with no buffer open, no bindings and no modes.
    pub fn new() -> (e: Editor)
        ensures
            e@.wf(),
            e@.window.tabs.len() == 0,
            e@.window.active is None,
            e@.window.viewer_buffers == Set::<BufferId>::empty(),
            e@.window.focus == crate::window::Focus::Editor,
            e@.window.next_buffer_id == 0,
            e@.keybindings.inheriting_modes == Set::<Seq<char>>::empty(),
            e@.keybindings.plugin_defaults.len() == 0,
            e@.modes.len() == 0,
            e@.status is None,
    {
        Editor {
            window: Window::new(),
            keybindings: KeybindingResolver::new(),
            mode_registry: ModeRegistry::new(),
            status_message: None,
        }
    }

    pub fn active_buffer(&self) -> (r: Option<BufferId>)
        ensures
            r == self@.window.active,
    {
        self.window.active_buffer()
    }

    /// The active buffer, if there is one.
    pub fn active_state(&self) -> (r: Option<&Buffer>)
        requires
            self@.wf(),
        ensures
            match r {
                Some(b) => self@.window.active_buffer() == Some(b@),
                None => self@.window.active_buffer() is None,
            },
    {
        self.window.active_state()
    }

    /// How the active split renders the active buffer.
    pub fn active_view_mode(&self) -> (r: Option<ViewMode>)
        requires
            self@.wf(),
        ensures
            match self@.window.active_buffer() {
                Some(b) => r == Some(b.view_mode),
                None => r is None,
            },
    {
        match self.window.active_state() {
            Some(b) => Some(b.view_mode),
            None => None,
        }
    }

    pub fn set_status_message(&mut self, message: StatusMessage)
        ensures
            final(self)@ == (EditorView { status: Some(message@), ..old(self)@ }),
    {
        self.status_message = Some(message);
    }

    /// Hands the keyboard to the file explorer.
    pub fn focus_file_explorer(&mut self)
        ensures
            final(self)@ == (EditorView {
                window: WindowView { focus: crate::window::Focus::FileExplorer, ..old(self)@.window },
                ..old(self)@
            }),
    {
        self.window.focus_file_explorer();
    }
}

} // verus!
