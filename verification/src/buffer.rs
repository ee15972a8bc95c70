//! Buffers as the editor's tab strip sees them, and the sequence algebra that
//! the window's operations are specified with.
use vstd::prelude::*;

verus! {

/// Identifies one open buffer for the lifetime of the editor.
pub type BufferId = usize;

/// How the active split renders a buffer.
#[derive(Clone, Copy, PartialEq, Eq, Structural, Debug)]
pub enum ViewMode {
    Text,
    Hex,
}

/// One open buffer: its identity, where it came from, and the flags that the
/// viewer logic reads and writes.
pub struct Buffer {
    pub id: BufferId,
    /// Display name, shown on the tab.
    pub name: String,
    /// Path the buffer was loaded from; two opens of one path share a buffer.
    pub path: String,
    /// The metadata flag that the `[RO]` status segment reads.
    pub read_only: bool,
    /// The state flag that the input gates read.
    pub editing_disabled: bool,
    pub modified: bool,
    pub binary: bool,
    /// Opened as a preview rather than as a kept tab.
    pub preview: bool,
    pub view_mode: ViewMode,
}

/// The mathematical value of a [`Buffer`].
pub struct BufferView {
    pub id: BufferId,
    pub name: Seq<char>,
    pub path: Seq<char>,
    pub read_only: bool,
    pub editing_disabled: bool,
    pub modified: bool,
    pub binary: bool,
    pub preview: bool,
    pub view_mode: ViewMode,
}

impl View for Buffer {
    type V = BufferView;

    open spec fn view(&self) -> BufferView {
        BufferView {
            id: self.id,
            name: self.name@,
            path: self.path@,
            read_only: self.read_only,
            editing_disabled: self.editing_disabled,
            modified: self.modified,
            binary: self.binary,
            preview: self.preview,
            view_mode: self.view_mode,
        }
    }
}

/// A file that was read from disk and is ready to become a buffer.
pub struct LoadedFile {
    pub path: String,
    /// Whether the buffer loader classified the contents as binary.
    pub binary: bool,
}

pub struct LoadedFileView {
    pub path: Seq<char>,
    pub binary: bool,
}

impl View for LoadedFile {
    type V = LoadedFileView;

    open spec fn view(&self) -> LoadedFileView {
        LoadedFileView { path: self.path@, binary: self.binary }
    }
}

pub open spec fn buffer_views(s: Seq<Buffer>) -> Seq<BufferView> {
    s.map_values(|b: Buffer| b@)
}

/// The last buffer of `s` with identity `id`.
pub open spec fn find(s: Seq<BufferView>, id: BufferId) -> Option<BufferView>
    decreases s.len(),
{
    if s.len() == 0 {
        None
    } else if s.last().id == id {
        Some(s.last())
    } else {
        find(s.drop_last(), id)
    }
}

/// The last buffer of `s` loaded from `path`.
pub open spec fn find_by_path(s: Seq<BufferView>, path: Seq<char>) -> Option<BufferView>
    decreases s.len(),
{
    if s.len() == 0 {
        None
    } else if s.last().path == path {
        Some(s.last())
    } else {
        find_by_path(s.drop_last(), path)
    }
}

pub open spec fn distinct_ids(s: Seq<BufferView>) -> bool {
    forall|i: int, j: int| 0 <= i < j < s.len() ==> s[i].id != s[j].id
}

pub open spec fn ids_below(s: Seq<BufferView>, bound: BufferId) -> bool {
    forall|i: int| 0 <= i < s.len() ==> s[i].id < bound
}

/// `s` without the buffers whose identity is in `gone`, order kept.
pub open spec fn without(s: Seq<BufferView>, gone: Set<BufferId>) -> Seq<BufferView>
    decreases s.len(),
{
    if s.len() == 0 {
        s
    } else {
        let rest = without(s.drop_last(), gone);
        if gone.contains(s.last().id) {
            rest
        } else {
            rest.push(s.last())
        }
    }
}

pub open spec fn last_id(s: Seq<BufferView>) -> Option<BufferId> {
    if s.len() == 0 {
        None
    } else {
        Some(s.last().id)
    }
}

/// `s` with `change` applied to the buffers whose identity is `id`.
pub open spec fn update_buffer(
    s: Seq<BufferView>,
    id: BufferId,
    change: spec_fn(BufferView) -> BufferView,
) -> Seq<BufferView> {
    s.map_values(|b: BufferView| if b.id == id { change(b) } else { b })
}

pub open spec fn distinct_paths(s: Seq<BufferView>) -> bool {
    forall|i: int, j: int| 0 <= i < j < s.len() ==> s[i].path != s[j].path
}

/// `change` keeps what identifies a buffer: its id and its path.
pub open spec fn keeps_id(change: spec_fn(BufferView) -> BufferView) -> bool {
    forall|b: BufferView| #[trigger] change(b).id == b.id && change(b).path == b.path
}

pub proof fn lemma_find_member(s: Seq<BufferView>, id: BufferId)
    ensures
        find(s, id) matches Some(b) ==> b.id == id && exists|i: int|
            0 <= i < s.len() && #[trigger] s[i] == b,
        find(s, id) is None ==> forall|i: int| 0 <= i < s.len() ==> #[trigger] s[i].id != id,
        find(s, id) is Some ==> s.len() > 0,
    decreases s.len(),
{
    if s.len() > 0 {
        let d = s.drop_last();
        lemma_find_member(d, id);
        if s.last().id == id {
            assert(s[s.len() - 1] == s.last());
        } else {
            if find(d, id) is Some {
                let i = choose|i: int| 0 <= i < d.len() && #[trigger] d[i] == find(d, id).unwrap();
                assert(s[i] == d[i]);
            } else {
                assert forall|i: int| 0 <= i < s.len() implies #[trigger] s[i].id != id by {
                    if i < d.len() {
                        assert(s[i] == d[i]);
                    }
                }
            }
        }
    }
}

pub proof fn lemma_find_by_path_member(s: Seq<BufferView>, path: Seq<char>)
    ensures
        find_by_path(s, path) matches Some(b) ==> b.path == path && exists|i: int|
            0 <= i < s.len() && #[trigger] s[i] == b,
        find_by_path(s, path) is None ==> forall|i: int|
            0 <= i < s.len() ==> #[trigger] s[i].path != path,
    decreases s.len(),
{
    if s.len() > 0 {
        let d = s.drop_last();
        lemma_find_by_path_member(d, path);
        if s.last().path == path {
            assert(s[s.len() - 1] == s.last());
        } else if find_by_path(d, path) is Some {
            let i = choose|i: int| 0 <= i < d.len() && #[trigger] d[i] == find_by_path(d, path).unwrap();
            assert(s[i] == d[i]);
        } else {
            assert forall|i: int| 0 <= i < s.len() implies #[trigger] s[i].path != path by {
                if i < d.len() {
                    assert(s[i] == d[i]);
                }
            }
        }
    }
}

pub proof fn lemma_find_by_path_unique(s: Seq<BufferView>, i: int)
    requires
        distinct_paths(s),
        0 <= i < s.len(),
    ensures
        find_by_path(s, s[i].path) == Some(s[i]),
    decreases s.len(),
{
    if i < s.len() - 1 {
        let d = s.drop_last();
        assert(s[i] == d[i]);
        assert(s[i].path != s[s.len() - 1].path);
        lemma_find_by_path_unique(d, i);
    }
}

pub proof fn lemma_find_unique(s: Seq<BufferView>, i: int)
    requires
        distinct_ids(s),
        0 <= i < s.len(),
    ensures
        find(s, s[i].id) == Some(s[i]),
    decreases s.len(),
{
    if i < s.len() - 1 {
        let d = s.drop_last();
        assert(s[i] == d[i]);
        assert(s[i].id != s[s.len() - 1].id);
        lemma_find_unique(d, i);
    }
}

/// One step of a search from the back: the prefix of length `i` against the
/// prefix of length `i - 1`.
pub proof fn lemma_take_step(s: Seq<BufferView>, i: int, id: BufferId, path: Seq<char>)
    requires
        0 < i <= s.len(),
    ensures
        find(s.take(i), id) == (if s[i - 1].id == id {
            Some(s[i - 1])
        } else {
            find(s.take(i - 1), id)
        }),
        find_by_path(s.take(i), path) == (if s[i - 1].path == path {
            Some(s[i - 1])
        } else {
            find_by_path(s.take(i - 1), path)
        }),
{
    assert(s.take(i).drop_last() =~= s.take(i - 1));
    assert(s.take(i).last() == s[i - 1]);
}

pub proof fn lemma_without(s: Seq<BufferView>, gone: Set<BufferId>)
    ensures
        forall|id: BufferId| #[trigger]
            find(without(s, gone), id) == (if gone.contains(id) {
                None
            } else {
                find(s, id)
            }),
        distinct_ids(s) ==> distinct_ids(without(s, gone)),
        distinct_paths(s) ==> distinct_paths(without(s, gone)),
        forall|k: int|
            0 <= k < without(s, gone).len() ==> exists|i: int|
                0 <= i < s.len() && s[i] == #[trigger] without(s, gone)[k],
    decreases s.len(),
{
    if s.len() > 0 {
        let d = s.drop_last();
        let rest = without(d, gone);
        lemma_without(d, gone);
        assert forall|k: int| 0 <= k < rest.len() implies exists|i: int|
            0 <= i < s.len() && s[i] == #[trigger] rest[k] by {
            let i = choose|i: int| 0 <= i < d.len() && d[i] == #[trigger] rest[k];
            assert(s[i] == d[i]);
        }
        if !gone.contains(s.last().id) {
            let w = rest.push(s.last());
            assert(w.drop_last() =~= rest);
            assert(w.last() == s.last());
            assert forall|id: BufferId| #[trigger]
                find(w, id) == (if gone.contains(id) {
                    None
                } else {
                    find(s, id)
                }) by {
                assert(find(rest, id) == (if gone.contains(id) {
                    None
                } else {
                    find(d, id)
                }));
            }
            assert forall|k: int| 0 <= k < w.len() implies exists|i: int|
                0 <= i < s.len() && s[i] == #[trigger] w[k] by {
                if k < rest.len() {
                    assert(w[k] == rest[k]);
                } else {
                    assert(s[s.len() - 1] == w[k]);
                }
            }
            if distinct_paths(s) {
                assert(distinct_paths(d));
                assert forall|i: int, j: int| 0 <= i < j < w.len() implies w[i].path != w[j].path by {
                    if j == w.len() - 1 {
                        assert(w[i] == rest[i]);
                        let a2 = choose|a2: int| 0 <= a2 < d.len() && d[a2] == #[trigger] rest[i];
                        assert(s[a2] == d[a2]);
                        assert(s[a2].path != s[s.len() - 1].path);
                    } else {
                        assert(w[i] == rest[i]);
                        assert(w[j] == rest[j]);
                    }
                }
            }
            if distinct_ids(s) {
                assert(distinct_ids(d));
                assert forall|i: int, j: int| 0 <= i < j < w.len() implies w[i].id != w[j].id by {
                    if j == w.len() - 1 {
                        let a = choose|a: int| 0 <= a < s.len() && s[a] == #[trigger] rest[i];
                        assert(w[i] == rest[i]);
                        let a2 = choose|a2: int| 0 <= a2 < d.len() && d[a2] == #[trigger] rest[i];
                        assert(s[a2] == d[a2]);
                        assert(s[a2].id != s[s.len() - 1].id);
                    } else {
                        assert(w[i] == rest[i]);
                        assert(w[j] == rest[j]);
                    }
                }
            }
        }
    }
}

pub proof fn lemma_without_union(s: Seq<BufferView>, a: Set<BufferId>, b: Set<BufferId>)
    ensures
        without(without(s, a), b) == without(s, a.union(b)),
    decreases s.len(),
{
    if s.len() > 0 {
        let d = s.drop_last();
        lemma_without_union(d, a, b);
        let ra = without(d, a);
        if !a.contains(s.last().id) {
            assert(ra.push(s.last()).drop_last() =~= ra);
            assert(ra.push(s.last()).last() == s.last());
        }
    }
}

pub proof fn lemma_without_nothing(s: Seq<BufferView>, gone: Set<BufferId>)
    requires
        forall|i: int| 0 <= i < s.len() ==> !gone.contains(#[trigger] s[i].id),
    ensures
        without(s, gone) == s,
    decreases s.len(),
{
    if s.len() > 0 {
        let d = s.drop_last();
        assert forall|i: int| 0 <= i < d.len() implies !gone.contains(#[trigger] d[i].id) by {
            assert(d[i] == s[i]);
        }
        lemma_without_nothing(d, gone);
        assert(s[s.len() - 1] == s.last());
        assert(d.push(s.last()) =~= s);
    }
}

pub proof fn lemma_remove_is_without(s: Seq<BufferView>, j: int)
    requires
        distinct_ids(s),
        0 <= j < s.len(),
    ensures
        s.remove(j) == without(s, set![s[j].id]),
    decreases s.len(),
{
    let d = s.drop_last();
    let x = s[j].id;
    if j == s.len() - 1 {
        assert forall|i: int| 0 <= i < d.len() implies !set![x].contains(#[trigger] d[i].id) by {
            assert(d[i] == s[i]);
        }
        lemma_without_nothing(d, set![x]);
        assert(s.remove(j) =~= d);
    } else {
        assert(d[j] == s[j]);
        assert(s[j].id != s[s.len() - 1].id);
        lemma_remove_is_without(d, j);
        assert(s.remove(j) =~= d.remove(j).push(s.last()));
    }
}

pub proof fn lemma_without_last(s: Seq<BufferView>, x: BufferId)
    requires
        last_id(s) != Some(x),
    ensures
        last_id(without(s, set![x])) == last_id(s),
{
    if s.len() > 0 {
        assert(!set![x].contains(s.last().id));
        let rest = without(s.drop_last(), set![x]);
        assert(rest.push(s.last()).last() == s.last());
    }
}

pub proof fn lemma_update(s: Seq<BufferView>, id: BufferId, change: spec_fn(BufferView) -> BufferView)
    requires
        keeps_id(change),
    ensures
        update_buffer(s, id, change).len() == s.len(),
        forall|k: int|
            0 <= k < s.len() ==> #[trigger] update_buffer(s, id, change)[k].id == s[k].id
                && update_buffer(s, id, change)[k].path == s[k].path,
        distinct_ids(s) ==> distinct_ids(update_buffer(s, id, change)),
        distinct_paths(s) ==> distinct_paths(update_buffer(s, id, change)),
        forall|y: BufferId| #[trigger]
            find(update_buffer(s, id, change), y) == (if y == id {
                match find(s, id) {
                    Some(b) => Some(change(b)),
                    None => None,
                }
            } else {
                find(s, y)
            }),
    decreases s.len(),
{
    let u = update_buffer(s, id, change);
    assert forall|k: int| 0 <= k < s.len() implies #[trigger] u[k].id == s[k].id && u[k].path
        == s[k].path by {
        assert(change(s[k]).id == s[k].id);
    }
    if distinct_paths(s) {
        assert forall|i: int, j: int| 0 <= i < j < u.len() implies u[i].path != u[j].path by {
            assert(u[i].id == s[i].id);
            assert(u[j].id == s[j].id);
        }
    }
    if s.len() > 0 {
        let d = s.drop_last();
        lemma_update(d, id, change);
        assert(u.drop_last() =~= update_buffer(d, id, change));
        assert(change(s.last()).id == s.last().id);
        assert(u.last() == (if s.last().id == id { change(s.last()) } else { s.last() }));
        assert forall|y: BufferId| #[trigger]
            find(u, y) == (if y == id {
                match find(s, id) {
                    Some(b) => Some(change(b)),
                    None => None,
                }
            } else {
                find(s, y)
            }) by {
            assert(find(update_buffer(d, id, change), y) == (if y == id {
                match find(d, id) {
                    Some(b) => Some(change(b)),
                    None => None,
                }
            } else {
                find(d, y)
            }));
        }
    }
}

pub proof fn lemma_update_at(s: Seq<BufferView>, i: int, change: spec_fn(BufferView) -> BufferView)
    requires
        distinct_ids(s),
        0 <= i < s.len(),
    ensures
        s.update(i, change(s[i])) == update_buffer(s, s[i].id, change),
{
    assert(s.update(i, change(s[i])) =~= update_buffer(s, s[i].id, change));
}

pub proof fn lemma_update_absent(s: Seq<BufferView>, id: BufferId, change: spec_fn(BufferView) -> BufferView)
    requires
        find(s, id) is None,
    ensures
        update_buffer(s, id, change) == s,
{
    lemma_find_member(s, id);
    assert(update_buffer(s, id, change) =~= s);
}

pub proof fn lemma_update_noop(s: Seq<BufferView>, id: BufferId, change: spec_fn(BufferView) -> BufferView)
    requires
        distinct_ids(s),
        find(s, id) matches Some(b) ==> change(b) == b,
    ensures
        update_buffer(s, id, change) == s,
{
    assert forall|k: int| 0 <= k < s.len() implies #[trigger] update_buffer(s, id, change)[k]
        == s[k] by {
        if s[k].id == id {
            lemma_find_unique(s, k);
        }
    }
    assert(update_buffer(s, id, change) =~= s);
}

} // verus!
