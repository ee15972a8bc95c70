//! The editor window: its tabs, which of them is active, which of them the
//! viewer opened, and where the keyboard focus is.
use std::collections::HashSet;
use vstd::prelude::*;

use crate::path_name::{display_name, display_name_of};
use crate::buffer::{
    buffer_views, distinct_ids, distinct_paths, find, find_by_path, ids_below, keeps_id, last_id,
    lemma_find_by_path_member, lemma_find_member, lemma_remove_is_without, lemma_take_step,
    lemma_update, lemma_update_absent, lemma_update_at, lemma_without, update_buffer, without,
    Buffer, BufferId, BufferView, LoadedFile, LoadedFileView, ViewMode,
};

verus! {

broadcast use vstd::std_specs::hash::group_hash_axioms;

/// Which part of the window owns the keyboard.
#[derive(Clone, Copy, PartialEq, Eq, Structural, Debug)]
pub enum Focus {
    Editor,
    FileExplorer,
}

/// Why a buffer could not be closed.
#[derive(Clone, Copy, PartialEq, Eq, Structural, Debug)]
pub enum CloseError {
    NotFound,
    /// Closing would throw away unsaved changes.
    Modified,
}

pub struct Window {
    /// The open buffers, in tab order.
    pub tabs: Vec<Buffer>,
    pub active: Option<BufferId>,
    /// Buffers that the file viewer opened and may still retire.
    pub viewer_buffers: HashSet<BufferId>,
    pub focus: Focus,
    /// The identity the next new buffer gets.
    pub next_buffer_id: BufferId,
}

pub struct WindowView {
    pub tabs: Seq<BufferView>,
    pub active: Option<BufferId>,
    pub viewer_buffers: Set<BufferId>,
    pub focus: Focus,
    pub next_buffer_id: BufferId,
}

impl View for Window {
    type V = WindowView;

    open spec fn view(&self) -> WindowView {
        WindowView {
            tabs: buffer_views(self.tabs@),
            active: self.active,
            viewer_buffers: self.viewer_buffers@,
            focus: self.focus,
            next_buffer_id: self.next_buffer_id,
        }
    }
}

impl WindowView {
    /// Identities are unique and below the next one to be handed out; no
    /// path is open twice; the active buffer is open, and there is one
    /// whenever a tab is.
    pub open spec fn wf(self) -> bool {
        &&& distinct_ids(self.tabs)
        &&& distinct_paths(self.tabs)
        &&& ids_below(self.tabs, self.next_buffer_id)
        &&& match self.active {
            Some(a) => find(self.tabs, a) is Some,
            None => self.tabs.len() == 0,
        }
    }

    /// Opening `path` needs no fresh identity, or one is left.
    pub open spec fn can_open(self, path: Seq<char>) -> bool {
        find_by_path(self.tabs, path) is Some || self.next_buffer_id < usize::MAX
    }

    pub open spec fn active_buffer(self) -> Option<BufferView> {
        match self.active {
            Some(a) => find(self.tabs, a),
            None => None,
        }
    }
}

/// Opening a file: an open buffer of the same path is reused and activated,
/// otherwise a new tab is appended and activated.
pub open spec fn spec_open_file(w: WindowView, file: LoadedFileView, preview: bool) -> (
    WindowView,
    BufferId,
) {
    match find_by_path(w.tabs, file.path) {
        Some(b) => (WindowView { active: Some(b.id), ..w }, b.id),
        None => {
            let b = BufferView {
                id: w.next_buffer_id,
                name: display_name(file.path),
                path: file.path,
                read_only: false,
                editing_disabled: false,
                modified: false,
                binary: file.binary,
                preview,
                view_mode: ViewMode::Text,
            };
            (
                WindowView {
                    tabs: w.tabs.push(b),
                    active: Some(b.id),
                    next_buffer_id: (w.next_buffer_id + 1) as BufferId,
                    ..w
                },
                b.id,
            )
        },
    }
}

/// The active buffer once the buffers in `gone` are closed: unchanged unless
/// it was closed, then the last remaining tab.
pub open spec fn active_after(
    active: Option<BufferId>,
    gone: Set<BufferId>,
    tabs: Seq<BufferView>,
) -> Option<BufferId> {
    match active {
        Some(a) => if gone.contains(a) {
            last_id(tabs)
        } else {
            active
        },
        None => None,
    }
}

pub open spec fn close_result(w: WindowView, id: BufferId) -> Result<(), CloseError> {
    match find(w.tabs, id) {
        None => Err(CloseError::NotFound),
        Some(b) => if b.modified {
            Err(CloseError::Modified)
        } else {
            Ok(())
        },
    }
}

pub open spec fn spec_close(w: WindowView, id: BufferId) -> WindowView {
    if close_result(w, id) is Ok {
        let tabs = without(w.tabs, set![id]);
        WindowView { tabs, active: active_after(w.active, set![id], tabs), ..w }
    } else {
        w
    }
}

pub open spec fn read_only_change(read_only: bool) -> spec_fn(BufferView) -> BufferView {
    |b: BufferView| BufferView { read_only, editing_disabled: read_only, ..b }
}

pub open spec fn promote_change() -> spec_fn(BufferView) -> BufferView {
    |b: BufferView| BufferView { preview: false, ..b }
}

pub open spec fn view_mode_change(mode: ViewMode) -> spec_fn(BufferView) -> BufferView {
    |b: BufferView| BufferView { view_mode: mode, ..b }
}

pub open spec fn spec_mark_read_only(w: WindowView, id: BufferId, read_only: bool) -> WindowView {
    WindowView { tabs: update_buffer(w.tabs, id, read_only_change(read_only)), ..w }
}

pub open spec fn spec_promote(w: WindowView, id: BufferId) -> WindowView {
    WindowView { tabs: update_buffer(w.tabs, id, promote_change()), ..w }
}

pub open spec fn toggled(mode: ViewMode) -> ViewMode {
    match mode {
        ViewMode::Text => ViewMode::Hex,
        ViewMode::Hex => ViewMode::Text,
    }
}

/// Flips the active buffer between text and hex rendering.
pub open spec fn spec_toggle_hex(w: WindowView) -> WindowView {
    match w.active_buffer() {
        Some(b) => WindowView {
            tabs: update_buffer(w.tabs, b.id, view_mode_change(toggled(b.view_mode))),
            ..w
        },
        None => w,
    }
}

pub proof fn lemma_changes_keep_id(read_only: bool, mode: ViewMode)
    ensures
        keeps_id(read_only_change(read_only)),
        keeps_id(promote_change()),
        keeps_id(view_mode_change(mode)),
{
}

/// A flag change keeps the window well formed.
pub proof fn lemma_update_wf(w: WindowView, id: BufferId, change: spec_fn(BufferView) -> BufferView)
    requires
        w.wf(),
        keeps_id(change),
    ensures
        (WindowView { tabs: update_buffer(w.tabs, id, change), ..w }).wf(),
{
    let u = update_buffer(w.tabs, id, change);
    lemma_update(w.tabs, id, change);
    if let Some(a) = w.active {
        assert(find(u, a) is Some);
    }
}

/// Closing one more buffer after a set of them moves the active buffer as
/// closing the whole set at once does.
pub proof fn lemma_active_step(
    a0: Option<BufferId>,
    gone: Set<BufferId>,
    tabs: Seq<BufferView>,
    x: BufferId,
)
    ensures
        active_after(active_after(a0, gone, tabs), set![x], without(tabs, set![x]))
            == active_after(a0, gone.insert(x), without(tabs, set![x])),
{
    if let Some(y) = a0 {
        if gone.contains(y) && last_id(tabs) != Some(x) {
            crate::buffer::lemma_without_last(tabs, x);
        }
    }
}

/// What opening a file does to the window, read off its definition.
pub proof fn lemma_open_file(w: WindowView, file: LoadedFileView, preview: bool)
    requires
        w.wf(),
        w.can_open(file.path),
    ensures
        ({
            let (w2, id) = spec_open_file(w, file, preview);
            &&& w2.wf()
            &&& w2.active == Some(id)
            &&& find(w2.tabs, id) matches Some(b) && b.id == id && b.path == file.path
                && b.modified == (match find_by_path(w.tabs, file.path) {
                Some(t) => t.modified,
                None => false,
            })
            &&& forall|x: BufferId| x != id ==> #[trigger] find(w2.tabs, x) == find(w.tabs, x)
            &&& w2.viewer_buffers == w.viewer_buffers
            &&& w2.focus == w.focus
        }),
{
    let (w2, id) = spec_open_file(w, file, preview);
    lemma_find_by_path_member(w.tabs, file.path);
    match find_by_path(w.tabs, file.path) {
        Some(t) => {
            let k = choose|k: int| 0 <= k < w.tabs.len() && #[trigger] w.tabs[k] == t;
            crate::buffer::lemma_find_unique(w.tabs, k);
        },
        None => {
            let b = w2.tabs.last();
            assert(w2.tabs.drop_last() =~= w.tabs);
            assert forall|i: int, j: int| 0 <= i < j < w2.tabs.len() implies w2.tabs[i].id
                != w2.tabs[j].id by {
                if j < w.tabs.len() {
                    assert(w2.tabs[i] == w.tabs[i]);
                    assert(w2.tabs[j] == w.tabs[j]);
                } else {
                    assert(w2.tabs[i] == w.tabs[i]);
                }
            }
            assert forall|i: int, j: int| 0 <= i < j < w2.tabs.len() implies w2.tabs[i].path
                != w2.tabs[j].path by {
                assert(w2.tabs[i] == w.tabs[i]);
                if j < w.tabs.len() {
                    assert(w2.tabs[j] == w.tabs[j]);
                }
            }
            assert forall|i: int| 0 <= i < w2.tabs.len() implies w2.tabs[i].id
                < w2.next_buffer_id by {
                if i < w.tabs.len() {
                    assert(w2.tabs[i] == w.tabs[i]);
                }
            }
        },
    }
}

/// Closing the buffers of `gone` and moving the active buffer accordingly
/// keeps the window well formed.
pub proof fn lemma_close_all_wf(w: WindowView, gone: Set<BufferId>)
    requires
        w.wf(),
    ensures
        ({
            let tabs = without(w.tabs, gone);
            (WindowView { tabs, active: active_after(w.active, gone, tabs), ..w }).wf()
        }),
{
    let tabs = without(w.tabs, gone);
    lemma_without(w.tabs, gone);
    assert forall|k: int| 0 <= k < tabs.len() implies tabs[k].id < w.next_buffer_id by {
        let i = choose|i: int| 0 <= i < w.tabs.len() && w.tabs[i] == #[trigger] tabs[k];
    }
    if let Some(a) = w.active {
        if gone.contains(a) {
            if tabs.len() > 0 {
                assert(tabs[tabs.len() - 1] == tabs.last());
                lemma_find_member(tabs, tabs.last().id);
            }
        } else {
            lemma_find_member(tabs, a);
        }
    }
}

impl Window {
    pub fn new() -> (w: Window)
        ensures
            w@.wf(),
            w@.tabs.len() == 0,
            w@.active is None,
            w@.viewer_buffers == Set::<BufferId>::empty(),
            w@.focus == Focus::Editor,
            w@.next_buffer_id == 0,
    {
        let w = Window {
            tabs: Vec::new(),
            active: None,
            viewer_buffers: HashSet::new(),
            focus: Focus::Editor,
            next_buffer_id: 0,
        };
        assert(w@.tabs =~= Seq::<BufferView>::empty());
        w
    }

    /// Index of the tab holding buffer `id`.
    pub fn index_of(&self, id: BufferId) -> (r: Option<usize>)
        ensures
            match r {
                Some(i) => i < self.tabs.len() && self.tabs@[i as int].id == id && find(
                    self@.tabs,
                    id,
                ) == Some(self@.tabs[i as int]),
                None => find(self@.tabs, id) is None,
            },
    {
        let ghost s = self@.tabs;
        let mut i = self.tabs.len();
        assert(s.take(i as int) =~= s);
        while i > 0
            invariant
                s == self@.tabs,
                i <= self.tabs.len(),
                find(s, id) == find(s.take(i as int), id),
            decreases i,
        {
            proof {
                lemma_take_step(s, i as int, id, Seq::empty());
            }
            if self.tabs[i - 1].id == id {
                return Some(i - 1);
            }
            i -= 1;
        }
        assert(s.take(0) =~= Seq::<BufferView>::empty());
        None
    }

    /// Index of the last tab loaded from `path`.
    fn index_of_path(&self, path: &String) -> (r: Option<usize>)
        ensures
            match r {
                Some(i) => i < self.tabs.len() && find_by_path(self@.tabs, path@) == Some(
                    self@.tabs[i as int],
                ),
                None => find_by_path(self@.tabs, path@) is None,
            },
    {
        let ghost s = self@.tabs;
        let mut i = self.tabs.len();
        assert(s.take(i as int) =~= s);
        while i > 0
            invariant
                s == self@.tabs,
                i <= self.tabs.len(),
                find_by_path(s, path@) == find_by_path(s.take(i as int), path@),
            decreases i,
        {
            proof {
                lemma_take_step(s, i as int, 0, path@);
            }
            if self.tabs[i - 1].path == *path {
                return Some(i - 1);
            }
            i -= 1;
        }
        assert(s.take(0) =~= Seq::<BufferView>::empty());
        None
    }

    pub fn active_buffer(&self) -> (r: Option<BufferId>)
        ensures
            r == self@.active,
    {
        self.active
    }

    /// The active buffer, if there is one.
    pub fn active_state(&self) -> (r: Option<&Buffer>)
        requires
            self@.wf(),
        ensures
            match r {
                Some(b) => self@.active_buffer() == Some(b@),
                None => self@.active_buffer() is None,
            },
    {
        match self.active {
            Some(a) => match self.index_of(a) {
                Some(i) => Some(&self.tabs[i]),
                None => None,
            },
            None => None,
        }
    }

    /// Opens `file`, reusing the buffer of an already open file of the same
    /// path, and makes it the active buffer.
    pub fn open_file(&mut self, file: LoadedFile, preview: bool) -> (id: BufferId)
        requires
            old(self)@.wf(),
            old(self)@.can_open(file@.path),
        ensures
            final(self)@.wf(),
            (final(self)@, id) == spec_open_file(old(self)@, file@, preview),
    {
        let ghost w = self@;
        let ghost f = file@;
        proof {
            lemma_open_file(w, f, preview);
        }
        match self.index_of_path(&file.path) {
            Some(i) => {
                let id = self.tabs[i].id;
                self.active = Some(id);
                id
            },
            None => {
                let id = self.next_buffer_id;
                let name = display_name_of(file.path.as_str());
                let b = Buffer {
                    id,
                    name,
                    path: file.path,
                    read_only: false,
                    editing_disabled: false,
                    modified: false,
                    binary: file.binary,
                    preview,
                    view_mode: ViewMode::Text,
                };
                self.tabs.push(b);
                self.active = Some(id);
                self.next_buffer_id = id + 1;
                assert(self@.tabs =~= w.tabs.push(b@));
                id
            },
        }
    }

    /// Closes buffer `id`; refuses when it is not open or holds unsaved
    /// changes. Closing the active buffer activates the last remaining tab.
    pub fn close_buffer(&mut self, id: BufferId) -> (r: Result<(), CloseError>)
        requires
            old(self)@.wf(),
        ensures
            final(self)@.wf(),
            r == close_result(old(self)@, id),
            final(self)@ == spec_close(old(self)@, id),
    {
        let ghost w = self@;
        match self.index_of(id) {
            None => Err(CloseError::NotFound),
            Some(i) => {
                if self.tabs[i].modified {
                    return Err(CloseError::Modified);
                }
                self.tabs.remove(i);
                let ghost t = without(w.tabs, set![id]);
                proof {
                    lemma_remove_is_without(w.tabs, i as int);
                    assert(self@.tabs =~= w.tabs.remove(i as int));
                    lemma_without(w.tabs, set![id]);
                }
                if self.active == Some(id) {
                    let n = self.tabs.len();
                    if n == 0 {
                        self.active = None;
                    } else {
                        self.active = Some(self.tabs[n - 1].id);
                        proof {
                            assert(self@.tabs[n - 1].id == self.tabs@[n - 1].id);
                            lemma_find_member(t, self.tabs@[n - 1].id);
                        }
                    }
                } else {
                    proof {
                        lemma_find_member(t, w.active.unwrap());
                    }
                }
                Ok(())
            },
        }
    }

    /// Sets the metadata flag and the state flag together.
    pub fn mark_buffer_read_only(&mut self, id: BufferId, read_only: bool)
        requires
            old(self)@.wf(),
        ensures
            final(self)@.wf(),
            final(self)@ == spec_mark_read_only(old(self)@, id, read_only),
    {
        let ghost w = self@;
        proof {
            lemma_changes_keep_id(read_only, ViewMode::Text);
            lemma_update_wf(w, id, read_only_change(read_only));
        }
        match self.index_of(id) {
            Some(i) => {
                self.tabs[i].read_only = read_only;
                self.tabs[i].editing_disabled = read_only;
                proof {
                    lemma_update_at(w.tabs, i as int, read_only_change(read_only));
                    assert(self@.tabs =~= w.tabs.update(
                        i as int,
                        read_only_change(read_only)(w.tabs[i as int]),
                    ));
                }
            },
            None => {
                proof {
                    lemma_update_absent(w.tabs, id, read_only_change(read_only));
                }
            },
        }
    }

    /// Turns a preview tab into a kept one.
    pub fn promote_buffer_from_preview(&mut self, id: BufferId)
        requires
            old(self)@.wf(),
        ensures
            final(self)@.wf(),
            final(self)@ == spec_promote(old(self)@, id),
    {
        let ghost w = self@;
        proof {
            lemma_changes_keep_id(false, ViewMode::Text);
            lemma_update_wf(w, id, promote_change());
        }
        match self.index_of(id) {
            Some(i) => {
                self.tabs[i].preview = false;
                proof {
                    lemma_update_at(w.tabs, i as int, promote_change());
                    assert(self@.tabs =~= w.tabs.update(
                        i as int,
                        promote_change()(w.tabs[i as int]),
                    ));
                }
            },
            None => {
                proof {
                    lemma_update_absent(w.tabs, id, promote_change());
                }
            },
        }
    }

    /// Switches the active buffer between text and hex rendering.
    pub fn handle_toggle_hex_view(&mut self)
        requires
            old(self)@.wf(),
        ensures
            final(self)@.wf(),
            final(self)@ == spec_toggle_hex(old(self)@),
    {
        let ghost w = self@;
        if let Some(a) = self.active {
            if let Some(i) = self.index_of(a) {
                let mode = match self.tabs[i].view_mode {
                    ViewMode::Text => ViewMode::Hex,
                    ViewMode::Hex => ViewMode::Text,
                };
                self.tabs[i].view_mode = mode;
                proof {
                    lemma_changes_keep_id(false, mode);
                    lemma_update_wf(w, a, view_mode_change(mode));
                    lemma_update_at(w.tabs, i as int, view_mode_change(mode));
                    assert(self@.tabs =~= w.tabs.update(
                        i as int,
                        view_mode_change(mode)(w.tabs[i as int]),
                    ));
                }
            }
        }
    }

    pub fn focus_editor(&mut self)
        ensures
            final(self)@ == (WindowView { focus: Focus::Editor, ..old(self)@ }),
    {
        self.focus = Focus::Editor;
    }

    pub fn focus_file_explorer(&mut self)
        ensures
            final(self)@ == (WindowView { focus: Focus::FileExplorer, ..old(self)@ }),
    {
        self.focus = Focus::FileExplorer;
    }
}

} // verus!
