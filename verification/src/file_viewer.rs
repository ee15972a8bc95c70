//! The LIST-style file viewer: open a file to look at it, not to edit it.
//!
//! Opening from the browser lands here rather than in a plain open. The
//! buffer comes up read-only, and only one viewer tab survives at a time:
//! browsing is a sequence of glances, and each glance would otherwise leave a
//! tab behind.
use vstd::prelude::*;

use crate::buffer::{
    find, lemma_find_member, lemma_find_unique, lemma_update, lemma_without, lemma_without_union,
    update_buffer, without, BufferId, BufferView, LoadedFile, LoadedFileView, ViewMode,
};
use crate::editor::{Editor, EditorView, StatusMessage, StatusView};
use crate::keys::{
    drop_mode, law_drop_mode_keeps_other_lookups, lemma_lookup_push, lookup_binding, on_slot,
    resolve_binding, slot_index, Action, BindingView, ContextView, KeyCode,
    KeyContext, KeyModifiers, ResolverView,
};
use crate::modes::{lemma_register_twice, lookup_mode, register_mode, BufferMode, ModeView};
use crate::search::lemma_last_index_is;
use crate::buffer::{
    find_by_path, lemma_find_by_path_member, lemma_find_by_path_unique, lemma_update_noop,
    lemma_without_nothing,
};
use crate::path_name::{display_name, display_name_of};
use crate::window::{
    active_after, lemma_active_step, lemma_changes_keep_id, lemma_close_all_wf, lemma_open_file,
    lemma_update_wf, promote_change, read_only_change, spec_mark_read_only, spec_open_file,
    spec_promote, spec_toggle_hex, toggled, view_mode_change, Focus, WindowView,
};
use vstd::std_specs::iter::IteratorSpec;

verus! {

broadcast use vstd::std_specs::hash::group_hash_axioms;

/// Key-context mode name for a file open in the viewer.
pub const VIEWER_MODE: &'static str = "viewer";

pub open spec fn no_modifiers() -> KeyModifiers {
    KeyModifiers { bits: 0 }
}

pub open spec fn viewer_binding(key: KeyCode, action: Action) -> BindingView {
    BindingView { context: ContextView::Mode(VIEWER_MODE@), key, modifiers: no_modifiers(), action }
}

/// The viewer's own bindings: `h` and `H` for the hex dump, Esc back to the
/// listing.
pub open spec fn viewer_bindings() -> Seq<BindingView> {
    seq![
        viewer_binding(KeyCode::Char('h'), Action::ToggleHexView),
        viewer_binding(KeyCode::Char('H'), Action::ToggleHexView),
        viewer_binding(KeyCode::Esc, Action::FocusFileExplorer),
    ]
}

/// The viewer mode: read-only, with the normal bindings underneath.
pub open spec fn viewer_mode() -> ModeView {
    ModeView { name: VIEWER_MODE@, read_only: true, inherit_normal_bindings: true }
}

/// The editor with the viewer mode installed: its previous plugin defaults
/// dropped and its own appended, inheritance of the normal bindings on, and
/// the mode registered.
pub open spec fn spec_register_viewer(e: EditorView) -> EditorView {
    EditorView {
        keybindings: ResolverView {
            plugin_defaults: drop_mode(e.keybindings.plugin_defaults, VIEWER_MODE@)
                + viewer_bindings(),
            inheriting_modes: e.keybindings.inheriting_modes.insert(VIEWER_MODE@),
        },
        modes: register_mode(e.modes, viewer_mode()),
        ..e
    }
}

/// Hex view for the active buffer when it is binary and not yet in hex.
pub open spec fn spec_default_to_hex(w: WindowView) -> WindowView {
    match w.active_buffer() {
        Some(b) => if b.binary && b.view_mode != ViewMode::Hex {
            WindowView { tabs: update_buffer(w.tabs, b.id, view_mode_change(ViewMode::Hex)), ..w }
        } else {
            w
        },
        None => w,
    }
}

/// Whether the active buffer is one the viewer opened.
pub open spec fn viewer_is_active(w: WindowView) -> bool {
    match w.active {
        Some(a) => w.viewer_buffers.contains(a),
        None => false,
    }
}

pub proof fn lemma_drop_mode(s: Seq<BindingView>, mode: Seq<char>)
    ensures
        forall|k: int|
            0 <= k < drop_mode(s, mode).len() ==> #[trigger] drop_mode(s, mode)[k].context
                != ContextView::Mode(mode),
        (forall|k: int| 0 <= k < s.len() ==> #[trigger] s[k].context != ContextView::Mode(mode))
            ==> drop_mode(s, mode) == s,
    decreases s.len(),
{
    if s.len() > 0 {
        let d = s.drop_last();
        lemma_drop_mode(d, mode);
        let rest = drop_mode(d, mode);
        if s.last().context != ContextView::Mode(mode) {
            let w = rest.push(s.last());
            assert forall|k: int| 0 <= k < w.len() implies #[trigger] w[k].context
                != ContextView::Mode(mode) by {
                if k < rest.len() {
                    assert(w[k] == rest[k]);
                }
            }
        }
        if forall|k: int| 0 <= k < s.len() ==> #[trigger] s[k].context != ContextView::Mode(mode) {
            assert forall|k: int| 0 <= k < d.len() implies #[trigger] d[k].context
                != ContextView::Mode(mode) by {
                assert(d[k] == s[k]);
            }
            assert(s[s.len() - 1] == s.last());
            assert(d.push(s.last()) =~= s);
        }
    }
}

pub proof fn lemma_drop_mode_push(s: Seq<BindingView>, b: BindingView, mode: Seq<char>)
    requires
        b.context == ContextView::Mode(mode),
    ensures
        drop_mode(s.push(b), mode) == drop_mode(s, mode),
{
    assert(s.push(b).drop_last() =~= s);
}

/// No binding of `s` sits on the viewer slot of `key`.
proof fn lemma_free_viewer_slot(s: Seq<BindingView>, key: KeyCode)
    requires
        forall|k: int|
            0 <= k < s.len() ==> #[trigger] s[k].context != ContextView::Mode(VIEWER_MODE@)
                || s[k].key != key,
    ensures
        slot_index(s, ContextView::Mode(VIEWER_MODE@), key, no_modifiers()) == -1,
{
    lemma_last_index_is(s, on_slot(ContextView::Mode(VIEWER_MODE@), key, no_modifiers()), -1);
}

/// Installing the viewer mode twice leaves the editor as installing it once.
pub proof fn law_register_viewer_idempotent(e: EditorView)
    ensures
        spec_register_viewer(spec_register_viewer(e)) == spec_register_viewer(e),
{
    let v = VIEWER_MODE@;
    let d = drop_mode(e.keybindings.plugin_defaults, v);
    lemma_drop_mode(e.keybindings.plugin_defaults, v);
    let b = viewer_bindings();
    let s1 = d.push(b[0]);
    let s2 = s1.push(b[1]);
    assert(d + b =~= s2.push(b[2]));
    lemma_drop_mode_push(s2, b[2], v);
    lemma_drop_mode_push(s1, b[1], v);
    lemma_drop_mode_push(d, b[0], v);
    lemma_drop_mode(d, v);
    lemma_register_twice(e.modes, viewer_mode());
    let r = spec_register_viewer(e);
    assert(r.keybindings.inheriting_modes.insert(v) =~= r.keybindings.inheriting_modes);
}

/// Once the viewer mode is installed, `h` and `H` show the hex dump, Esc
/// returns to the listing, the normal bindings stay underneath, and the mode
/// is registered read-only.
pub proof fn law_viewer_bindings(e: EditorView)
    ensures
        ({
            let r = spec_register_viewer(e);
            let ctx = ContextView::Mode(VIEWER_MODE@);
            &&& lookup_binding(r.keybindings.plugin_defaults, ctx, KeyCode::Char('h'), no_modifiers())
                == Some(Action::ToggleHexView)
            &&& lookup_binding(r.keybindings.plugin_defaults, ctx, KeyCode::Char('H'), no_modifiers())
                == Some(Action::ToggleHexView)
            &&& lookup_binding(r.keybindings.plugin_defaults, ctx, KeyCode::Esc, no_modifiers())
                == Some(Action::FocusFileExplorer)
            &&& r.keybindings.inheriting_modes.contains(VIEWER_MODE@)
            &&& lookup_mode(r.modes, VIEWER_MODE@) == Some(viewer_mode())
        }),
{
    let v = VIEWER_MODE@;
    let ctx = ContextView::Mode(v);
    let d = drop_mode(e.keybindings.plugin_defaults, v);
    lemma_drop_mode(e.keybindings.plugin_defaults, v);
    let s = d + viewer_bindings();
    let n = d.len() as int;
    assert(s[n] == viewer_bindings()[0]);
    assert(s[n + 1] == viewer_bindings()[1]);
    assert(s[n + 2] == viewer_bindings()[2]);
    lemma_last_index_is(s, on_slot(ctx, KeyCode::Char('h'), no_modifiers()), n);
    lemma_last_index_is(s, on_slot(ctx, KeyCode::Char('H'), no_modifiers()), n + 1);
    lemma_last_index_is(s, on_slot(ctx, KeyCode::Esc, no_modifiers()), n + 2);
    lemma_register_twice(e.modes, viewer_mode());
}

/// In the viewer every key but `h`, `H` and Esc (unmodified) does what it
/// does in the normal context: motion, scrolling, copy and search keep
/// working. Those three do what the viewer binds them to.
pub proof fn law_viewer_inherits_normal(e: EditorView, key: KeyCode, modifiers: KeyModifiers)
    ensures
        ({
            let r = spec_register_viewer(e).keybindings;
            let ctx = ContextView::Mode(VIEWER_MODE@);
            &&& !(modifiers == no_modifiers() && (key == KeyCode::Char('h') || key == KeyCode::Char(
                'H',
            ) || key == KeyCode::Esc)) ==> resolve_binding(r, ctx, key, modifiers)
                == resolve_binding(r, ContextView::Normal, key, modifiers)
            &&& resolve_binding(r, ctx, KeyCode::Char('h'), no_modifiers()) == Some(
                Action::ToggleHexView,
            )
            &&& resolve_binding(r, ctx, KeyCode::Char('H'), no_modifiers()) == Some(
                Action::ToggleHexView,
            )
            &&& resolve_binding(r, ctx, KeyCode::Esc, no_modifiers()) == Some(
                Action::FocusFileExplorer,
            )
        }),
{
    law_viewer_bindings(e);
    let v = VIEWER_MODE@;
    let ctx = ContextView::Mode(v);
    let d = drop_mode(e.keybindings.plugin_defaults, v);
    lemma_drop_mode(e.keybindings.plugin_defaults, v);
    let s = d + viewer_bindings();
    let n = d.len() as int;
    assert(s[n] == viewer_bindings()[0]);
    assert(s[n + 1] == viewer_bindings()[1]);
    assert(s[n + 2] == viewer_bindings()[2]);
    if !(modifiers == no_modifiers() && (key == KeyCode::Char('h') || key == KeyCode::Char('H')
        || key == KeyCode::Esc)) {
        let p = on_slot(ctx, key, modifiers);
        assert forall|j: int| -1 < j < s.len() implies !p(#[trigger] s[j]) by {
            if j < n {
                assert(s[j] == d[j]);
            }
        }
        lemma_last_index_is(s, p, -1);
    }
}

impl Editor {
    /// Installs the viewer mode's keybindings and registry entry.
    ///
    /// Idempotent, and called on every viewer open rather than once at
    /// startup: a reload of the keybindings carries over only the
    /// plugin-default tier, so a mode registered once would quietly stop
    /// resolving after a settings change.
    pub fn ensure_viewer_mode_registered(&mut self)
        ensures
            final(self)@ == spec_register_viewer(old(self)@),
            final(self)@.window == old(self)@.window,
            final(self)@.status == old(self)@.status,
    {
        let ghost e = self@;
        let ghost v = VIEWER_MODE@;
        let ghost d = drop_mode(e.keybindings.plugin_defaults, v);
        let ghost b = viewer_bindings();
        self.keybindings.clear_plugin_defaults_for_mode(VIEWER_MODE);
        // Motion, scrolling, copy and search all keep working; only editing is
        // refused, and that by the read-only flag rather than by withholding
        // bindings.
        self.keybindings.set_mode_inherits_normal_bindings(VIEWER_MODE, true);
        proof {
            lemma_drop_mode(e.keybindings.plugin_defaults, v);
            lemma_free_viewer_slot(d, KeyCode::Char('h'));
        }
        // `H` for the hex dump; a bare letter is free because the viewer is
        // read-only.
        self.keybindings.load_plugin_default(
            KeyContext::Mode(String::from_str(VIEWER_MODE)),
            KeyCode::Char('h'),
            KeyModifiers::none(),
            Action::ToggleHexView,
        );
        proof {
            let s1 = d.push(b[0]);
            assert forall|k: int| 0 <= k < s1.len() implies #[trigger] s1[k].context
                != ContextView::Mode(v) || s1[k].key != KeyCode::Char('H') by {
                if k < d.len() {
                    assert(s1[k] == d[k]);
                }
            }
            lemma_free_viewer_slot(s1, KeyCode::Char('H'));
        }
        self.keybindings.load_plugin_default(
            KeyContext::Mode(String::from_str(VIEWER_MODE)),
            KeyCode::Char('H'),
            KeyModifiers::none(),
            Action::ToggleHexView,
        );
        proof {
            let s2 = d.push(b[0]).push(b[1]);
            assert forall|k: int| 0 <= k < s2.len() implies #[trigger] s2[k].context
                != ContextView::Mode(v) || s2[k].key != KeyCode::Esc by {
                if k < d.len() {
                    assert(s2[k] == d[k]);
                }
            }
            lemma_free_viewer_slot(s2, KeyCode::Esc);
        }
        // Esc returns to the listing you came from.
        self.keybindings.load_plugin_default(
            KeyContext::Mode(String::from_str(VIEWER_MODE)),
            KeyCode::Esc,
            KeyModifiers::none(),
            Action::FocusFileExplorer,
        );
        assert(self@.keybindings.plugin_defaults =~= d + b);
        self.mode_registry.register(
            BufferMode::new(VIEWER_MODE).with_read_only(true).with_inherit_normal_bindings(true),
        );
    }
}

/// Defaulting to hex a second time changes nothing.
pub proof fn law_default_to_hex_idempotent(w: WindowView)
    requires
        w.wf(),
    ensures
        spec_default_to_hex(spec_default_to_hex(w)) == spec_default_to_hex(w),
{
    lemma_changes_keep_id(false, ViewMode::Hex);
    if let Some(a) = w.active {
        lemma_find_member(w.tabs, a);
        lemma_update(w.tabs, a, view_mode_change(ViewMode::Hex));
        let b = find(w.tabs, a).unwrap();
        assert(view_mode_change(ViewMode::Hex)(b).view_mode == ViewMode::Hex);
    }
}

/// Toggling the hex view twice gives the text view back.
pub proof fn law_toggle_hex_twice(w: WindowView)
    requires
        w.wf(),
    ensures
        spec_toggle_hex(spec_toggle_hex(w)) == w,
{
    if let Some(b) = w.active_buffer() {
        let a = b.id;
        let m = b.view_mode;
        lemma_find_member(w.tabs, w.active.unwrap());
        lemma_changes_keep_id(false, toggled(m));
        lemma_update(w.tabs, a, view_mode_change(toggled(m)));
        let t1 = update_buffer(w.tabs, a, view_mode_change(toggled(m)));
        let t2 = update_buffer(t1, a, view_mode_change(toggled(toggled(m))));
        assert forall|k: int| 0 <= k < w.tabs.len() implies #[trigger] t2[k] == w.tabs[k] by {
            if w.tabs[k].id == a {
                lemma_find_unique(w.tabs, k);
            }
        }
        assert(t2 =~= w.tabs);
    }
}

impl Editor {
    /// Puts the active buffer into hex view when it is binary.
    ///
    /// The text renderer's escape soup is no way to look at bytes, and anyone
    /// looking at a binary wants the dump; text files are left as they are.
    pub fn default_to_hex_if_binary(&mut self)
        requires
            old(self)@.wf(),
        ensures
            final(self)@.wf(),
            final(self)@ == (EditorView {
                window: spec_default_to_hex(old(self)@.window),
                ..old(self)@
            }),
            final(self)@.window.active == old(self)@.window.active,
            match old(self)@.window.active_buffer() {
                Some(b) => final(self)@.window.active_buffer() == Some(
                    if b.binary {
                        BufferView { view_mode: ViewMode::Hex, ..b }
                    } else {
                        b
                    },
                ),
                None => final(self)@.window == old(self)@.window,
            },
    {
        let ghost w = self@.window;
        let binary = match self.active_state() {
            Some(b) => b.binary,
            None => false,
        };
        let in_hex = match self.active_view_mode() {
            Some(ViewMode::Hex) => true,
            _ => false,
        };
        if binary && !in_hex {
            self.window.handle_toggle_hex_view();
        }
        proof {
            lemma_changes_keep_id(false, ViewMode::Hex);
            if let Some(a) = w.active {
                lemma_find_member(w.tabs, a);
                lemma_update(w.tabs, a, view_mode_change(ViewMode::Hex));
                let b = find(w.tabs, a).unwrap();
                assert(view_mode_change(ViewMode::Hex)(b) == BufferView { view_mode: ViewMode::Hex, ..b });
                if b.view_mode == ViewMode::Hex {
                    assert(b == BufferView { view_mode: ViewMode::Hex, ..b });
                }
            }
        }
    }

    /// Whether the active buffer is one the viewer opened.
    pub fn active_buffer_is_viewer(&self) -> (r: bool)
        ensures
            r == viewer_is_active(self@.window),
            r == (self@.window.active matches Some(a) && self@.window.viewer_buffers.contains(a)),
    {
        match self.active_buffer() {
            Some(id) => self.window.viewer_buffers.contains(&id),
            None => false,
        }
    }
}

/// A viewer buffer that is still a glance: locked and unmodified.
pub open spec fn retirable(tabs: Seq<BufferView>, id: BufferId) -> bool {
    match find(tabs, id) {
        Some(b) => b.read_only && !b.modified,
        None => false,
    }
}

/// The viewer buffers, other than `keep`, that are still glances.
pub open spec fn retired(w: WindowView, keep: BufferId) -> Set<BufferId> {
    Set::new(|id: BufferId| w.viewer_buffers.contains(id) && id != keep && retirable(w.tabs, id))
}

/// Every viewer buffer but `keep` leaves the viewer's tracking; those still
/// glances are closed, the others stay open.
pub open spec fn spec_retire(w: WindowView, keep: BufferId) -> WindowView {
    let gone = retired(w, keep);
    let tabs = without(w.tabs, gone);
    WindowView {
        tabs,
        active: active_after(w.active, gone, tabs),
        viewer_buffers: w.viewer_buffers.intersect(set![keep]),
        ..w
    }
}

spec fn prefix_set(v: Seq<BufferId>, i: int) -> Set<BufferId> {
    Set::new(|x: BufferId| exists|k: int| 0 <= k < i && v[k] == x)
}

pub proof fn lemma_retire_wf(w: WindowView, keep: BufferId)
    requires
        w.wf(),
    ensures
        spec_retire(w, keep).wf(),
{
    lemma_close_all_wf(w, retired(w, keep));
}

impl Editor {
    /// Closes the viewer tabs opened before `keep`, so browsing leaves at
    /// most one behind.
    ///
    /// Only tabs the viewer opened are touched, and only while they are still
    /// glances: a file the user unlocked, or modified, has stopped being
    /// disposable. Those stay open and are dropped from tracking, so a later
    /// glance never reconsiders them.
    pub fn retire_previous_viewer_buffers(&mut self, keep: BufferId)
        requires
            old(self)@.wf(),
        ensures
            final(self)@.wf(),
            final(self)@ == (EditorView {
                window: spec_retire(old(self)@.window, keep),
                ..old(self)@
            }),
    {
        let ghost e0 = self@;
        let ghost w0 = self@.window;
        let ghost gone = retired(w0, keep);
        let mut previous: Vec<BufferId> = Vec::new();
        let ids = self.window.viewer_buffers.iter();
        assert(ids.remaining().unref().to_set() == w0.viewer_buffers);
        for id in it: ids
            invariant
                w0 == old(self)@.window,
                it.seq().unref().to_set() == w0.viewer_buffers,
                forall|k: int|
                    0 <= k < previous.len() ==> w0.viewer_buffers.contains(#[trigger] previous@[k])
                        && previous@[k] != keep,
                forall|x: BufferId|
                    #![trigger w0.viewer_buffers.contains(x)]
                    w0.viewer_buffers.contains(x) && x != keep ==> previous@.contains(x) || exists|
                        j: int,
                    |
                        it.index() <= j < it.seq().len() && *it.seq()[j] == x,
        {
            if *id != keep {
                previous.push(*id);
            }
            proof {
                broadcast use vstd::seq_lib::group_seq_properties;

                let s = it.seq().unref();
                assert forall|x: BufferId|
                    #![trigger w0.viewer_buffers.contains(x)]
                    w0.viewer_buffers.contains(x) && x != keep implies previous@.contains(x)
                        || exists|j: int| it.index() + 1 <= j < it.seq().len() && *it.seq()[j] == x by {
                    if !previous@.contains(x) {
                        let j = choose|j: int| it.index() <= j < it.seq().len() && *it.seq()[j] == x;
                        if j == it.index() {
                            assert(previous@.last() == x);
                        }
                    }
                }
            }
        }
        let mut i: usize = 0;
        proof {
            assert(gone.intersect(prefix_set(previous@, 0)) =~= Set::<BufferId>::empty());
            crate::buffer::lemma_without_nothing(w0.tabs, Set::<BufferId>::empty());
        }
        while i < previous.len()
            invariant
                w0 == old(self)@.window,
                e0 == old(self)@,
                gone == retired(w0, keep),
                i <= previous.len(),
                self@.wf(),
                self@.keybindings == e0.keybindings,
                self@.modes == e0.modes,
                self@.status == e0.status,
                forall|k: int|
                    0 <= k < previous.len() ==> w0.viewer_buffers.contains(#[trigger] previous@[k])
                        && previous@[k] != keep,
                forall|x: BufferId|
                    #![trigger w0.viewer_buffers.contains(x)]
                    w0.viewer_buffers.contains(x) && x != keep ==> previous@.contains(x),
                self@.window.tabs == without(
                    w0.tabs,
                    gone.intersect(prefix_set(previous@, i as int)),
                ),
                self@.window.active == active_after(
                    w0.active,
                    gone.intersect(prefix_set(previous@, i as int)),
                    self@.window.tabs,
                ),
                self@.window.viewer_buffers == w0.viewer_buffers.difference(
                    prefix_set(previous@, i as int),
                ),
                self@.window.focus == w0.focus,
                self@.window.next_buffer_id == w0.next_buffer_id,
            decreases previous.len() - i,
        {
            let id = previous[i];
            let ghost g = gone.intersect(prefix_set(previous@, i as int));
            let ghost g2 = gone.intersect(prefix_set(previous@, i + 1));
            let ghost t = self@.window.tabs;
            proof {
                lemma_without(w0.tabs, g);
                assert(prefix_set(previous@, i + 1) =~= prefix_set(previous@, i as int).insert(id));
            }
            let adopted = {
                let (still_read_only, modified) = match self.window.index_of(id) {
                    Some(k) => (self.window.tabs[k].read_only, self.window.tabs[k].modified),
                    None => (false, false),
                };
                !still_read_only || modified
            };
            proof {
                if adopted {
                    assert(g2 =~= g);
                } else {
                    assert(gone.contains(id));
                    assert(g2 =~= g.insert(id));
                    assert(g.union(set![id]) =~= g.insert(id));
                    lemma_without_union(w0.tabs, g, set![id]);
                    lemma_active_step(w0.active, g, t, id);
                }
            }
            if adopted || self.window.close_buffer(id).is_ok() {
                self.window.viewer_buffers.remove(&id);
            }
            assert(self@.window.viewer_buffers =~= w0.viewer_buffers.difference(
                prefix_set(previous@, i + 1),
            ));
            i += 1;
        }
        proof {
            assert(gone.intersect(prefix_set(previous@, i as int)) =~= gone);
            assert(w0.viewer_buffers.difference(prefix_set(previous@, i as int))
                =~= w0.viewer_buffers.intersect(set![keep]));
        }
    }
}

/// Opening a loaded file in the viewer: the viewer mode is installed, the
/// file opened (or its open buffer reused) as a kept tab, tracked, locked,
/// shown as hex when binary, the earlier glances retired, the focus handed
/// to the editor and the opening announced.
pub open spec fn spec_view_file(e: EditorView, file: LoadedFileView) -> (EditorView, BufferId) {
    let e1 = spec_register_viewer(e);
    let (w2, id) = spec_open_file(e1.window, file, false);
    let w3 = spec_promote(w2, id);
    let w4 = WindowView { viewer_buffers: w3.viewer_buffers.insert(id), ..w3 };
    let w5 = spec_mark_read_only(w4, id, true);
    let w6 = spec_default_to_hex(w5);
    let w7 = spec_retire(w6, id);
    (
        EditorView {
            window: WindowView { focus: Focus::Editor, ..w7 },
            status: Some(StatusView::ViewerOpened(display_name(file.path))),
            ..e1
        },
        id,
    )
}

/// Whether the open buffer that a view of `path` reuses, if any, already
/// holds unsaved changes.
pub open spec fn prior_modified(w: WindowView, path: Seq<char>) -> bool {
    match find_by_path(w.tabs, path) {
        Some(t) => t.modified,
        None => false,
    }
}

/// After a file is opened in the viewer, it is the active buffer and the
/// only tracked viewer buffer; it is locked (both flags), kept rather than
/// previewed, shown as hex when binary; the editor has the focus; every
/// other buffer is closed exactly when it was a viewer glance (locked and
/// unmodified) and otherwise left as it was.
pub proof fn law_view_file_outcome(e: EditorView, file: LoadedFileView)
    requires
        e.wf(),
        e.window.can_open(file.path),
    ensures
        ({
            let (e2, id) = spec_view_file(e, file);
            &&& e2.wf()
            &&& e2.window.active == Some(id)
            &&& e2.window.viewer_buffers == set![id]
            &&& viewer_is_active(e2.window)
            &&& find(e2.window.tabs, id) matches Some(b) && b.read_only && b.editing_disabled
                && !b.preview && b.path == file.path && b.modified == prior_modified(
                e.window,
                file.path,
            ) && (b.binary ==> b.view_mode == ViewMode::Hex)
            &&& e2.window.focus == Focus::Editor
            &&& e2.status == Some(StatusView::ViewerOpened(display_name(file.path)))
            &&& e2.keybindings == spec_register_viewer(e).keybindings
            &&& e2.modes == spec_register_viewer(e).modes
            &&& forall|x: BufferId|
                x != id ==> #[trigger] find(e2.window.tabs, x) == (if e.window.viewer_buffers.contains(
                    x,
                ) && retirable(e.window.tabs, x) {
                    None
                } else {
                    find(e.window.tabs, x)
                })
        }),
{
    let e1 = spec_register_viewer(e);
    let (w2, id) = spec_open_file(e1.window, file, false);
    let w3 = spec_promote(w2, id);
    let w4 = WindowView { viewer_buffers: w3.viewer_buffers.insert(id), ..w3 };
    let w5 = spec_mark_read_only(w4, id, true);
    let w6 = spec_default_to_hex(w5);
    let gone = retired(w6, id);
    lemma_open_file(e1.window, file, false);
    lemma_changes_keep_id(true, ViewMode::Hex);
    lemma_update(w2.tabs, id, promote_change());
    lemma_update_wf(w2, id, promote_change());
    lemma_update(w4.tabs, id, read_only_change(true));
    lemma_update_wf(w4, id, read_only_change(true));
    lemma_update(w5.tabs, id, view_mode_change(ViewMode::Hex));
    lemma_update_wf(w5, id, view_mode_change(ViewMode::Hex));
    lemma_without(w6.tabs, gone);
    lemma_retire_wf(w6, id);
    assert(w6.viewer_buffers.intersect(set![id]) =~= set![id]);
    assert forall|x: BufferId| x != id implies #[trigger] find(w6.tabs, x) == find(e.window.tabs, x)
        && (gone.contains(x) == (e.window.viewer_buffers.contains(x) && retirable(
        e.window.tabs,
        x,
    ))) by {
        assert(find(w5.tabs, x) == find(w4.tabs, x));
        assert(find(w3.tabs, x) == find(w2.tabs, x));
    }
    let (e2, id2) = spec_view_file(e, file);
    assert forall|x: BufferId| x != id implies #[trigger] find(e2.window.tabs, x) == (if e.window.viewer_buffers.contains(
        x,
    ) && retirable(e.window.tabs, x) {
        None
    } else {
        find(e.window.tabs, x)
    }) by {
        assert(find(w6.tabs, x) == find(e.window.tabs, x));
    }
}

impl Editor {
    /// Opens `file` as a read-only view, the way `LIST <file>` does.
    ///
    /// `file` is the outcome of reading the file; a failed read is handed
    /// back unchanged, after the viewer mode has been installed, for the
    /// caller to report: the browser stays on screen and puts the error in
    /// the status bar rather than tearing down.
    pub fn open_file_in_viewer<E>(&mut self, file: Result<LoadedFile, E>) -> (r: Result<(), E>)
        requires
            old(self)@.wf(),
            file matches Ok(f) ==> old(self)@.window.can_open(f@.path),
        ensures
            final(self)@.wf(),
            match file {
                Ok(f) => {
                    let (e2, id) = spec_view_file(old(self)@, f@);
                    &&& r is Ok
                    &&& final(self)@ == e2
                    &&& final(self)@.window.active == Some(id)
                    &&& final(self)@.window.viewer_buffers == set![id]
                    &&& find(final(self)@.window.tabs, id) matches Some(b) && b.read_only
                        && b.editing_disabled && !b.preview && b.path == f@.path
                    &&& final(self)@.window.focus == Focus::Editor
                    &&& final(self)@.status == Some(StatusView::ViewerOpened(display_name(f@.path)))
                },
                Err(err) => r == Err::<(), E>(err) && final(self)@ == spec_register_viewer(
                    old(self)@,
                ) && final(self)@.window == old(self)@.window && final(self)@.status == old(
                    self,
                )@.status,
            },
    {
        let ghost e0 = self@;
        self.ensure_viewer_mode_registered();
        let file = match file {
            Ok(f) => f,
            Err(err) => return Err(err),
        };
        let ghost f = file@;
        let name = display_name_of(file.path.as_str());
        let buffer_id = self.window.open_file(file, false);
        // Opening is the deliberate gesture, so the tab is a real one rather
        // than a preview that the next cursor move would replace.
        self.window.promote_buffer_from_preview(buffer_id);
        self.window.viewer_buffers.insert(buffer_id);
        // Both the metadata flag and the state flag, so that the `[RO]`
        // segment lights and toggling read-only starts from the right value.
        self.window.mark_buffer_read_only(buffer_id, true);
        self.default_to_hex_if_binary();
        // Retire the previous glance now that this one has replaced it; done
        // after the new buffer exists, so the window never empties.
        self.retire_previous_viewer_buffers(buffer_id);
        // Opening puts you in the file; Esc hands the keyboard back.
        self.window.focus_editor();
        self.set_status_message(StatusMessage::ViewerOpened { name });
        proof {
            law_view_file_outcome(e0, f);
        }
        Ok(())
    }
}

/// Retiring closes only buffers the viewer opened, never the one it keeps,
/// and leaves no viewer buffer tracked but that one.
pub proof fn law_retire_touches_only_glances(w: WindowView, keep: BufferId)
    ensures
        forall|x: BufferId|
            !w.viewer_buffers.contains(x) || x == keep ==> #[trigger] find(
                spec_retire(w, keep).tabs,
                x,
            ) == find(w.tabs, x),
        forall|x: BufferId|
            w.viewer_buffers.contains(x) && x != keep && !retirable(w.tabs, x) ==> #[trigger] find(
                spec_retire(w, keep).tabs,
                x,
            ) == find(w.tabs, x),
        forall|x: BufferId| #[trigger]
            retired(w, keep).contains(x) ==> find(spec_retire(w, keep).tabs, x) is None,
        forall|x: BufferId| #[trigger]
            spec_retire(w, keep).viewer_buffers.contains(x) ==> x == keep,
{
    lemma_without(w.tabs, retired(w, keep));
}

/// Viewing a second file retires the first: browsing leaves one tab rather
/// than one per file looked at. The first must not have been open with
/// unsaved changes already, which would have made it the user's to keep.
pub proof fn law_second_view_retires_first(
    e: EditorView,
    first: LoadedFileView,
    second: LoadedFileView,
)
    requires
        e.wf(),
        e.window.can_open(first.path),
        spec_view_file(e, first).0.window.can_open(second.path),
        first.path != second.path,
        !prior_modified(e.window, first.path),
    ensures
        ({
            let (e1, a) = spec_view_file(e, first);
            let (e2, b) = spec_view_file(e1, second);
            &&& a != b
            &&& find(e2.window.tabs, a) is None
            &&& find(e2.window.tabs, b) is Some
            &&& e2.window.viewer_buffers == set![b]
        }),
{
    let (e1, a) = spec_view_file(e, first);
    law_view_file_outcome(e, first);
    law_view_file_outcome(e1, second);
    let (e2, b) = spec_view_file(e1, second);
    let w1 = e1.window;
    lemma_find_member(w1.tabs, a);
    lemma_find_by_path_member(w1.tabs, second.path);
    match find_by_path(w1.tabs, second.path) {
        Some(t) => {
            let k = choose|k: int| 0 <= k < w1.tabs.len() && #[trigger] w1.tabs[k] == t;
            lemma_find_unique(w1.tabs, k);
        },
        None => {
            let k = choose|k: int| 0 <= k < w1.tabs.len() && #[trigger] w1.tabs[k] == find(w1.tabs, a).unwrap();
        },
    }
    assert(a != b);
    assert(find(e2.window.tabs, a) is None);
}

/// Viewing again the file that the viewer shows changes nothing: its buffer
/// is reused, stays open, active and the only one tracked, and no fresh
/// identity is needed for it.
pub proof fn law_view_same_file_again(e: EditorView, file: LoadedFileView)
    requires
        e.wf(),
        e.window.can_open(file.path),
    ensures
        ({
            let (e1, a) = spec_view_file(e, file);
            &&& e1.window.can_open(file.path)
            &&& spec_view_file(e1, file) == (e1, a)
        }),
{
    let (e1, a) = spec_view_file(e, file);
    law_view_file_outcome(e, file);
    law_register_viewer_idempotent(e);
    let w = e1.window;
    lemma_find_member(w.tabs, a);
    let b = find(w.tabs, a).unwrap();
    let k = choose|k: int| 0 <= k < w.tabs.len() && #[trigger] w.tabs[k] == b;
    lemma_find_by_path_unique(w.tabs, k);
    assert(find_by_path(w.tabs, file.path) == Some(b));

    let e1r = spec_register_viewer(e1);
    assert(e1r.keybindings == e1.keybindings);
    assert(e1r.modes == e1.modes);
    assert(e1r.window == w);
    let (w2, a2) = spec_open_file(w, file, false);
    assert(w2 == w);
    assert(a2 == a);
    assert(promote_change()(b) == b);
    lemma_update_noop(w.tabs, a, promote_change());
    let w3 = spec_promote(w2, a);
    assert(w3 == w);
    assert(w.viewer_buffers.insert(a) =~= w.viewer_buffers);
    let w4 = WindowView { viewer_buffers: w3.viewer_buffers.insert(a), ..w3 };
    assert(w4 == w);
    assert(read_only_change(true)(b) == b);
    lemma_update_noop(w.tabs, a, read_only_change(true));
    let w5 = spec_mark_read_only(w4, a, true);
    assert(w5 == w);
    let w6 = spec_default_to_hex(w5);
    assert(w6 == w);
    assert(retired(w, a) =~= Set::<BufferId>::empty());
    lemma_without_nothing(w.tabs, Set::<BufferId>::empty());
    assert(w.viewer_buffers.intersect(set![a]) =~= w.viewer_buffers);
    let w7 = spec_retire(w6, a);
    assert(w7 == w);
    let (e2, a3) = spec_view_file(e1, file);
    assert(e2 == e1);
}

/// Whether the active buffer is a viewer buffer depends on the viewer set
/// alone: the active buffer's identity is in it. Locking or unlocking a
/// buffer never changes the answer; tracking the active buffer makes it yes
/// and untracking it makes it no.
pub proof fn law_viewer_is_active_tracks_viewer_set(w: WindowView, id: BufferId, read_only: bool)
    ensures
        viewer_is_active(w) == (w.active matches Some(a) && w.viewer_buffers.contains(a)),
        viewer_is_active(crate::window::spec_mark_read_only(w, id, read_only)) == viewer_is_active(w),
        w.active matches Some(a) ==> viewer_is_active(
            WindowView { viewer_buffers: w.viewer_buffers.insert(a), ..w },
        ),
        w.active matches Some(a) ==> !viewer_is_active(
            WindowView { viewer_buffers: w.viewer_buffers.remove(a), ..w },
        ),
{
}

/// Installing the viewer mode touches only the keybindings and the mode
/// registry: the window (tabs, active buffer, viewer set, focus) and the
/// status message stay as they were, and every lookup outside the viewer
/// context (the normal bindings, the explorer's, other modes') is unchanged.
pub proof fn law_registration_touches_only_bindings(
    e: EditorView,
    context: ContextView,
    key: KeyCode,
    modifiers: KeyModifiers,
)
    requires
        context != ContextView::Mode(VIEWER_MODE@),
    ensures
        spec_register_viewer(e).window == e.window,
        spec_register_viewer(e).status == e.status,
        lookup_binding(spec_register_viewer(e).keybindings.plugin_defaults, context, key, modifiers)
            == lookup_binding(e.keybindings.plugin_defaults, context, key, modifiers),
{
    let v = VIEWER_MODE@;
    let d = drop_mode(e.keybindings.plugin_defaults, v);
    law_drop_mode_keeps_other_lookups(e.keybindings.plugin_defaults, v, context, key, modifiers);
    let b = viewer_bindings();
    let s1 = d.push(b[0]);
    let s2 = s1.push(b[1]);
    assert(d + b =~= s2.push(b[2]));
    lemma_lookup_push(d, b[0], context, key, modifiers);
    lemma_lookup_push(s1, b[1], context, key, modifiers);
    lemma_lookup_push(s2, b[2], context, key, modifiers);
}

} // verus!
