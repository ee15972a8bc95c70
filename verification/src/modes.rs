//! Buffer modes and the registry that holds them by name.
use vstd::prelude::*;

use crate::search::{last_index, lemma_last_index, lemma_last_index_is, lemma_last_index_step};

verus! {

/// A named mode that a buffer can be in, with the behaviour it implies.
pub struct BufferMode {
    pub name: String,
    pub read_only: bool,
    pub inherit_normal_bindings: bool,
}

pub struct ModeView {
    pub name: Seq<char>,
    pub read_only: bool,
    pub inherit_normal_bindings: bool,
}

impl View for BufferMode {
    type V = ModeView;

    open spec fn view(&self) -> ModeView {
        ModeView {
            name: self.name@,
            read_only: self.read_only,
            inherit_normal_bindings: self.inherit_normal_bindings,
        }
    }
}

impl BufferMode {
    /// A mode that neither locks its buffers nor inherits the normal bindings.
    pub fn new(name: &str) -> (m: BufferMode)
        ensures
            m@ == (ModeView { name: name@, read_only: false, inherit_normal_bindings: false }),
    {
        BufferMode { name: String::from_str(name), read_only: false, inherit_normal_bindings: false }
    }

    pub fn with_read_only(self, read_only: bool) -> (m: BufferMode)
        ensures
            m@ == (ModeView { read_only, ..self@ }),
    {
        BufferMode { read_only, ..self }
    }

    pub fn with_inherit_normal_bindings(self, inherit: bool) -> (m: BufferMode)
        ensures
            m@ == (ModeView { inherit_normal_bindings: inherit, ..self@ }),
    {
        BufferMode { inherit_normal_bindings: inherit, ..self }
    }
}

/// The registered modes; a name is registered at most once.
pub struct ModeRegistry {
    pub modes: Vec<BufferMode>,
}

pub open spec fn mode_views(s: Seq<BufferMode>) -> Seq<ModeView> {
    s.map_values(|m: BufferMode| m@)
}

impl View for ModeRegistry {
    type V = Seq<ModeView>;

    open spec fn view(&self) -> Seq<ModeView> {
        mode_views(self.modes@)
    }
}

pub open spec fn named(name: Seq<char>) -> spec_fn(ModeView) -> bool {
    |m: ModeView| m.name == name
}

pub open spec fn mode_index(s: Seq<ModeView>, name: Seq<char>) -> int {
    last_index(s, named(name))
}

/// `s` with `m` registered: a mode of the same name is replaced in place,
/// otherwise `m` is appended.
pub open spec fn register_mode(s: Seq<ModeView>, m: ModeView) -> Seq<ModeView> {
    let i = mode_index(s, m.name);
    if i >= 0 {
        s.update(i, m)
    } else {
        s.push(m)
    }
}

pub open spec fn lookup_mode(s: Seq<ModeView>, name: Seq<char>) -> Option<ModeView> {
    let i = mode_index(s, name);
    if i >= 0 {
        Some(s[i])
    } else {
        None
    }
}

/// Registering a mode twice is registering it once.
pub proof fn lemma_register_twice(s: Seq<ModeView>, m: ModeView)
    ensures
        register_mode(register_mode(s, m), m) == register_mode(s, m),
        lookup_mode(register_mode(s, m), m.name) == Some(m),
{
    let p = named(m.name);
    let i = mode_index(s, m.name);
    let t = register_mode(s, m);
    lemma_last_index(s, p);
    if i >= 0 {
        assert forall|j: int| i < j < t.len() implies !p(#[trigger] t[j]) by {
            assert(t[j] == s[j]);
        }
        lemma_last_index_is(t, p, i);
        assert(t.update(i, m) =~= t);
    } else {
        lemma_last_index_is(t, p, s.len() as int);
        assert(t.update(s.len() as int, m) =~= t);
    }
}

impl ModeRegistry {
    pub fn new() -> (r: ModeRegistry)
        ensures
            r@.len() == 0,
    {
        ModeRegistry { modes: Vec::new() }
    }

    fn index_of(&self, name: &String) -> (r: Option<usize>)
        ensures
            match r {
                Some(i) => i < self.modes.len() && i == mode_index(self@, name@),
                None => mode_index(self@, name@) == -1,
            },
    {
        let ghost s = self@;
        let ghost p = named(name@);
        let mut i = self.modes.len();
        assert(s.take(i as int) =~= s);
        while i > 0
            invariant
                s == self@,
                p == named(name@),
                i <= self.modes.len(),
                last_index(s, p) == last_index(s.take(i as int), p),
            decreases i,
        {
            proof {
                lemma_last_index_step(s, p, i as int);
            }
            assert(s[i - 1] == self.modes@[i - 1]@);
            if self.modes[i - 1].name == *name {
                return Some(i - 1);
            }
            i -= 1;
        }
        assert(s.take(0) =~= Seq::<ModeView>::empty());
        None
    }

    /// Registers `mode`, replacing a mode of the same name.
    pub fn register(&mut self, mode: BufferMode)
        ensures
            final(self)@ == register_mode(old(self)@, mode@),
    {
        let ghost s = self@;
        let ghost m = mode@;
        match self.index_of(&mode.name) {
            Some(i) => {
                self.modes.set(i, mode);
                assert(self@ =~= s.update(i as int, m));
            },
            None => {
                self.modes.push(mode);
                assert(self@ =~= s.push(m));
            },
        }
    }

    /// The mode registered under `name`.
    pub fn get(&self, name: &str) -> (r: Option<&BufferMode>)
        ensures
            match r {
                Some(m) => lookup_mode(self@, name@) == Some(m@),
                None => lookup_mode(self@, name@) is None,
            },
    {
        let key = String::from_str(name);
        match self.index_of(&key) {
            Some(i) => Some(&self.modes[i]),
            None => None,
        }
    }
}

} // verus!
