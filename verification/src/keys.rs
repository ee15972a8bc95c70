//! Keys, actions, and the plugin-default tier of the keybinding resolver.
use vstd::prelude::*;

use crate::search::{last_index, lemma_last_index, lemma_last_index_step};

verus! {

/// A key, as the terminal reports it.
#[derive(Clone, Copy, PartialEq, Eq, Structural, Debug)]
pub enum KeyCode {
    Backspace,
    Enter,
    Left,
    Right,
    Up,
    Down,
    Home,
    End,
    PageUp,
    PageDown,
    Tab,
    BackTab,
    Delete,
    Insert,
    /// A function key, by number.
    F(u8),
    Char(char),
    Null,
    Esc,
    CapsLock,
    ScrollLock,
    NumLock,
    PrintScreen,
    Pause,
    Menu,
    KeypadBegin,
}

/// Modifier keys held with a key, as a bit set: shift 1, control 2, alt 4.
#[derive(Clone, Copy, PartialEq, Eq, Structural, Debug)]
pub struct KeyModifiers {
    pub bits: u8,
}

impl KeyModifiers {
    /// No modifier held.
    pub fn none() -> (m: KeyModifiers)
        ensures
            m.bits == 0,
    {
        KeyModifiers { bits: 0 }
    }
}

/// What a bound key does.
#[derive(Clone, Copy, PartialEq, Eq, Structural, Debug)]
pub enum Action {
    ToggleHexView,
    FocusFileExplorer,
    ToggleReadOnly,
}

/// Where a binding applies.
pub enum KeyContext {
    Normal,
    FileExplorer,
    /// A buffer mode, by name.
    Mode(String),
}

pub enum ContextView {
    Normal,
    FileExplorer,
    Mode(Seq<char>),
}

impl View for KeyContext {
    type V = ContextView;

    open spec fn view(&self) -> ContextView {
        match self {
            KeyContext::Normal => ContextView::Normal,
            KeyContext::FileExplorer => ContextView::FileExplorer,
            KeyContext::Mode(m) => ContextView::Mode(m@),
        }
    }
}

pub struct Binding {
    pub context: KeyContext,
    pub key: KeyCode,
    pub modifiers: KeyModifiers,
    pub action: Action,
}

pub struct BindingView {
    pub context: ContextView,
    pub key: KeyCode,
    pub modifiers: KeyModifiers,
    pub action: Action,
}

impl View for Binding {
    type V = BindingView;

    open spec fn view(&self) -> BindingView {
        BindingView {
            context: self.context@,
            key: self.key,
            modifiers: self.modifiers,
            action: self.action,
        }
    }
}

/// The plugin-default tier of the resolver, and the modes whose bindings
/// fall back on the normal ones.
pub struct KeybindingResolver {
    pub plugin_defaults: Vec<Binding>,
    pub inheriting_modes: Vec<String>,
}

pub struct ResolverView {
    pub plugin_defaults: Seq<BindingView>,
    pub inheriting_modes: Set<Seq<char>>,
}

pub open spec fn binding_views(s: Seq<Binding>) -> Seq<BindingView> {
    s.map_values(|b: Binding| b@)
}

pub open spec fn name_set(v: Seq<String>) -> Set<Seq<char>> {
    Set::new(|m: Seq<char>| exists|i: int| 0 <= i < v.len() && #[trigger] v[i]@ == m)
}

impl View for KeybindingResolver {
    type V = ResolverView;

    open spec fn view(&self) -> ResolverView {
        ResolverView {
            plugin_defaults: binding_views(self.plugin_defaults@),
            inheriting_modes: name_set(self.inheriting_modes@),
        }
    }
}

/// Bindings that sit on the slot (`context`, `key`, `modifiers`).
pub open spec fn on_slot(context: ContextView, key: KeyCode, modifiers: KeyModifiers) -> spec_fn(
    BindingView,
) -> bool {
    |b: BindingView| b.context == context && b.key == key && b.modifiers == modifiers
}

pub open spec fn slot_index(
    s: Seq<BindingView>,
    context: ContextView,
    key: KeyCode,
    modifiers: KeyModifiers,
) -> int {
    last_index(s, on_slot(context, key, modifiers))
}

/// `s` with `b` in its slot: an existing binding of the slot is replaced in
/// place, otherwise `b` is appended.
pub open spec fn upsert_binding(s: Seq<BindingView>, b: BindingView) -> Seq<BindingView> {
    let i = slot_index(s, b.context, b.key, b.modifiers);
    if i >= 0 {
        s.update(i, b)
    } else {
        s.push(b)
    }
}

/// The action bound on a slot, if any.
pub open spec fn lookup_binding(
    s: Seq<BindingView>,
    context: ContextView,
    key: KeyCode,
    modifiers: KeyModifiers,
) -> Option<Action> {
    let i = slot_index(s, context, key, modifiers);
    if i >= 0 {
        Some(s[i].action)
    } else {
        None
    }
}

/// The action a key resolves to in `context`: the plugin default bound
/// there, or, in a buffer mode that inherits the normal bindings and binds
/// nothing on the slot itself, the one bound in the normal context.
pub open spec fn resolve_binding(
    r: ResolverView,
    context: ContextView,
    key: KeyCode,
    modifiers: KeyModifiers,
) -> Option<Action> {
    match lookup_binding(r.plugin_defaults, context, key, modifiers) {
        Some(a) => Some(a),
        None => match context {
            ContextView::Mode(m) => if r.inheriting_modes.contains(m) {
                lookup_binding(r.plugin_defaults, ContextView::Normal, key, modifiers)
            } else {
                None
            },
            _ => None,
        },
    }
}

/// `s` without the bindings of buffer mode `mode`, order kept.
pub open spec fn drop_mode(s: Seq<BindingView>, mode: Seq<char>) -> Seq<BindingView>
    decreases s.len(),
{
    if s.len() == 0 {
        s
    } else {
        let rest = drop_mode(s.drop_last(), mode);
        if s.last().context == ContextView::Mode(mode) {
            rest
        } else {
            rest.push(s.last())
        }
    }
}

pub proof fn lemma_lookup_push(
    t: Seq<BindingView>,
    x: BindingView,
    context: ContextView,
    key: KeyCode,
    modifiers: KeyModifiers,
)
    ensures
        lookup_binding(t.push(x), context, key, modifiers) == (if x.context == context && x.key
            == key && x.modifiers == modifiers {
            Some(x.action)
        } else {
            lookup_binding(t, context, key, modifiers)
        }),
{
    let p = on_slot(context, key, modifiers);
    let u = t.push(x);
    assert(u.drop_last() =~= t);
    assert(u.last() == x);
    lemma_last_index(t, p);
    let i = last_index(t, p);
    if i >= 0 {
        assert(u[i] == t[i]);
    }
}

/// Clearing a mode's plugin defaults keeps, in order, exactly the bindings
/// of every other context.
pub proof fn law_drop_mode_is_filter(s: Seq<BindingView>, mode: Seq<char>)
    ensures
        drop_mode(s, mode) == s.filter(|b: BindingView| b.context != ContextView::Mode(mode)),
    decreases s.len(),
{
    reveal_with_fuel(Seq::<_>::filter, 1);
    if s.len() > 0 {
        law_drop_mode_is_filter(s.drop_last(), mode);
    }
}

/// Clearing a mode's plugin defaults changes no lookup in any other context.
pub proof fn law_drop_mode_keeps_other_lookups(
    s: Seq<BindingView>,
    mode: Seq<char>,
    context: ContextView,
    key: KeyCode,
    modifiers: KeyModifiers,
)
    requires
        context != ContextView::Mode(mode),
    ensures
        lookup_binding(drop_mode(s, mode), context, key, modifiers) == lookup_binding(
            s,
            context,
            key,
            modifiers,
        ),
    decreases s.len(),
{
    if s.len() > 0 {
        let d = s.drop_last();
        let x = s.last();
        law_drop_mode_keeps_other_lookups(d, mode, context, key, modifiers);
        assert(d.push(x) =~= s);
        lemma_lookup_push(d, x, context, key, modifiers);
        if x.context != ContextView::Mode(mode) {
            lemma_lookup_push(drop_mode(d, mode), x, context, key, modifiers);
        }
    }
}

fn clone_context(c: &KeyContext) -> (r: KeyContext)
    ensures
        r@ == c@,
{
    match c {
        KeyContext::Normal => KeyContext::Normal,
        KeyContext::FileExplorer => KeyContext::FileExplorer,
        KeyContext::Mode(m) => KeyContext::Mode(m.clone()),
    }
}

fn clone_binding(b: &Binding) -> (r: Binding)
    ensures
        r@ == b@,
{
    Binding {
        context: clone_context(&b.context),
        key: b.key,
        modifiers: b.modifiers,
        action: b.action,
    }
}

fn same_context(a: &KeyContext, b: &KeyContext) -> (r: bool)
    ensures
        r == (a@ == b@),
{
    match (a, b) {
        (KeyContext::Normal, KeyContext::Normal) => true,
        (KeyContext::FileExplorer, KeyContext::FileExplorer) => true,
        (KeyContext::Mode(x), KeyContext::Mode(y)) => *x == *y,
        _ => false,
    }
}

proof fn lemma_name_set_push(v: Seq<String>, s: String)
    ensures
        name_set(v.push(s)) == name_set(v).insert(s@),
{
    let w = v.push(s);
    assert forall|m: Seq<char>| name_set(w).contains(m) == name_set(v).insert(s@).contains(m) by {
        if name_set(w).contains(m) {
            let i = choose|i: int| 0 <= i < w.len() && #[trigger] w[i]@ == m;
            if i < v.len() {
                assert(v[i] == w[i]);
            }
        }
        if name_set(v).contains(m) {
            let i = choose|i: int| 0 <= i < v.len() && #[trigger] v[i]@ == m;
            assert(w[i] == v[i]);
        }
        if m == s@ {
            assert(w[v.len() as int] == s);
        }
    }
    assert(name_set(w) =~= name_set(v).insert(s@));
}

impl KeybindingResolver {
    pub fn new() -> (r: KeybindingResolver)
        ensures
            r@.plugin_defaults.len() == 0,
            r@.inheriting_modes == Set::<Seq<char>>::empty(),
    {
        let r = KeybindingResolver { plugin_defaults: Vec::new(), inheriting_modes: Vec::new() };
        assert(r@.inheriting_modes =~= Set::<Seq<char>>::empty());
        r
    }

    /// Drops every plugin default bound in buffer mode `mode`.
    pub fn clear_plugin_defaults_for_mode(&mut self, mode: &str)
        ensures
            final(self)@ == (ResolverView {
                plugin_defaults: drop_mode(old(self)@.plugin_defaults, mode@),
                ..old(self)@
            }),
    {
        let ghost s = old(self)@.plugin_defaults;
        let name = String::from_str(mode);
        let mut kept: Vec<Binding> = Vec::new();
        let mut i: usize = 0;
        assert(s.take(0) =~= Seq::<BindingView>::empty());
        while i < self.plugin_defaults.len()
            invariant
                s == binding_views(self.plugin_defaults@),
                i <= self.plugin_defaults.len(),
                binding_views(kept@) == drop_mode(s.take(i as int), mode@),
                name@ == mode@,
            decreases self.plugin_defaults.len() - i,
        {
            let b = &self.plugin_defaults[i];
            let ghost before = kept@;
            assert(s.take(i + 1).drop_last() =~= s.take(i as int));
            assert(s.take(i + 1).last() == b@);
            let in_mode = match &b.context {
                KeyContext::Mode(m) => *m == name,
                _ => false,
            };
            if !in_mode {
                kept.push(clone_binding(b));
                assert(binding_views(kept@) =~= binding_views(before).push(b@));
            }
            i += 1;
        }
        assert(s.take(i as int) =~= s);
        self.plugin_defaults = kept;
    }

    /// Records whether buffer mode `mode` falls back on the normal bindings.
    pub fn set_mode_inherits_normal_bindings(&mut self, mode: &str, inherit: bool)
        ensures
            final(self)@ == (ResolverView {
                inheriting_modes: if inherit {
                    old(self)@.inheriting_modes.insert(mode@)
                } else {
                    old(self)@.inheriting_modes.remove(mode@)
                },
                ..old(self)@
            }),
    {
        let ghost v = self.inheriting_modes@;
        let name = String::from_str(mode);
        let mut kept: Vec<String> = Vec::new();
        let mut found = false;
        let mut i: usize = 0;
        while i < self.inheriting_modes.len()
            invariant
                v == self.inheriting_modes@,
                i <= v.len(),
                name@ == mode@,
                name_set(kept@) == name_set(v.take(i as int)).remove(mode@),
                found == name_set(v.take(i as int)).contains(mode@),
            decreases v.len() - i,
        {
            let ghost before = kept@;
            proof {
                assert(v.take(i + 1) =~= v.take(i as int).push(v[i as int]));
                lemma_name_set_push(v.take(i as int), v[i as int]);
            }
            if self.inheriting_modes[i] == name {
                found = true;
            } else {
                let m = self.inheriting_modes[i].clone();
                kept.push(m);
                proof {
                    lemma_name_set_push(before, m);
                }
            }
            assert(name_set(kept@) =~= name_set(v.take(i + 1)).remove(mode@));
            i += 1;
        }
        assert(v.take(i as int) =~= v);
        if inherit {
            if !found {
                self.inheriting_modes.push(name);
                proof {
                    lemma_name_set_push(v, name);
                }
            } else {
                assert(name_set(v).insert(mode@) =~= name_set(v));
            }
        } else {
            self.inheriting_modes = kept;
        }
    }

    pub fn inherits_normal_bindings(&self, mode: &str) -> (r: bool)
        ensures
            r == self@.inheriting_modes.contains(mode@),
    {
        let name = String::from_str(mode);
        let mut i: usize = 0;
        while i < self.inheriting_modes.len()
            invariant
                i <= self.inheriting_modes.len(),
                name@ == mode@,
                forall|k: int| 0 <= k < i ==> self.inheriting_modes@[k]@ != mode@,
            decreases self.inheriting_modes.len() - i,
        {
            if self.inheriting_modes[i] == name {
                return true;
            }
            i += 1;
        }
        false
    }

    /// Index of the binding on slot (`context`, `key`, `modifiers`).
    fn slot_of(&self, context: &KeyContext, key: KeyCode, modifiers: KeyModifiers) -> (r: Option<
        usize,
    >)
        ensures
            match r {
                Some(i) => i < self.plugin_defaults.len() && i == slot_index(
                    self@.plugin_defaults,
                    context@,
                    key,
                    modifiers,
                ),
                None => slot_index(self@.plugin_defaults, context@, key, modifiers) == -1,
            },
    {
        let ghost s = self@.plugin_defaults;
        let ghost p = on_slot(context@, key, modifiers);
        let mut i = self.plugin_defaults.len();
        assert(s.take(i as int) =~= s);
        while i > 0
            invariant
                s == self@.plugin_defaults,
                p == on_slot(context@, key, modifiers),
                i <= self.plugin_defaults.len(),
                last_index(s, p) == last_index(s.take(i as int), p),
            decreases i,
        {
            proof {
                lemma_last_index_step(s, p, i as int);
            }
            let b = &self.plugin_defaults[i - 1];
            assert(s[i - 1] == b@);
            assert(p(s[i - 1]) == (b@.context == context@ && b.key == key && b.modifiers == modifiers));
            if same_context(&b.context, context) && b.key == key && b.modifiers == modifiers {
                return Some(i - 1);
            }
            i -= 1;
        }
        assert(s.take(0) =~= Seq::<BindingView>::empty());
        None
    }

    /// Binds `key` with `modifiers` to `action` in `context`, replacing what
    /// the plugin-default tier had bound there.
    pub fn load_plugin_default(
        &mut self,
        context: KeyContext,
        key: KeyCode,
        modifiers: KeyModifiers,
        action: Action,
    )
        ensures
            final(self)@ == (ResolverView {
                plugin_defaults: upsert_binding(
                    old(self)@.plugin_defaults,
                    BindingView { context: context@, key, modifiers, action },
                ),
                ..old(self)@
            }),
    {
        let ghost s = self@.plugin_defaults;
        let ghost b = BindingView { context: context@, key, modifiers, action };
        match self.slot_of(&context, key, modifiers) {
            Some(i) => {
                proof {
                    lemma_last_index(s, on_slot(context@, key, modifiers));
                }
                self.plugin_defaults[i].action = action;
                assert(self@.plugin_defaults =~= s.update(i as int, b));
            },
            None => {
                self.plugin_defaults.push(Binding { context, key, modifiers, action });
                assert(self@.plugin_defaults =~= s.push(b));
            },
        }
    }

    /// The action that the plugin-default tier binds on a slot.
    pub fn plugin_default(&self, context: &KeyContext, key: KeyCode, modifiers: KeyModifiers) -> (r:
        Option<Action>)
        ensures
            r == lookup_binding(self@.plugin_defaults, context@, key, modifiers),
    {
        match self.slot_of(context, key, modifiers) {
            Some(i) => Some(self.plugin_defaults[i].action),
            None => None,
        }
    }

    /// What `key` with `modifiers` does in `context`, falling back on the
    /// normal bindings in a mode that inherits them.
    pub fn resolve(&self, context: &KeyContext, key: KeyCode, modifiers: KeyModifiers) -> (r:
        Option<Action>)
        ensures
            r == resolve_binding(self@, context@, key, modifiers),
    {
        match self.plugin_default(context, key, modifiers) {
            Some(a) => Some(a),
            None => match context {
                KeyContext::Mode(m) => if self.inherits_normal_bindings(m.as_str()) {
                    self.plugin_default(&KeyContext::Normal, key, modifiers)
                } else {
                    None
                },
                _ => None,
            },
        }
    }
}

} // verus!
