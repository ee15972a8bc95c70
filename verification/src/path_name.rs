//! The display name of a file: the final component of its `/`-separated path.
use vstd::prelude::*;

use crate::search::{last_index, lemma_last_index, lemma_last_index_is};

verus! {

pub open spec fn slash() -> spec_fn(char) -> bool {
    |c: char| c == '/'
}

/// The final component of path `p`: trailing separators and `.` components
/// are passed over; a path ending in `..`, or with no component left, has
/// none. So `/usr/bin/` gives `bin`, `foo.txt/.//` gives `foo.txt`, and
/// `foo.txt/..` and `/` give none.
pub open spec fn final_component(p: Seq<char>) -> Option<Seq<char>>
    decreases p.len(),
{
    if p.len() == 0 {
        None
    } else if p.last() == '/' {
        final_component(p.drop_last())
    } else {
        let start = last_index(p, slash()) + 1;
        proof {
            lemma_last_index(p, slash());
        }
        let seg = p.subrange(start, p.len() as int);
        if seg == seq!['.'] {
            final_component(p.subrange(0, start))
        } else if seg == seq!['.', '.'] {
            None
        } else {
            Some(seg)
        }
    }
}

/// The name shown for a file: its final component, or empty when it has none.
pub open spec fn display_name(path: Seq<char>) -> Seq<char> {
    match final_component(path) {
        Some(name) => name,
        None => Seq::empty(),
    }
}

/// The name shown for the file at `path`.
pub fn display_name_of(path: &str) -> (name: String)
    ensures
        name@ == display_name(path@),
{
    let ghost p = path@;
    let n = path.unicode_len();
    let mut end: usize = n;
    assert(p.subrange(0, n as int) =~= p);
    loop
        invariant
            p == path@,
            n == p.len(),
            end <= n,
            final_component(p) == final_component(p.subrange(0, end as int)),
        decreases end,
    {
        let ghost q = p.subrange(0, end as int);
        if end == 0 {
            assert(q.len() == 0);
            return String::new();
        }
        if path.get_char(end - 1) == '/' {
            assert(q.drop_last() =~= p.subrange(0, end - 1));
            assert(q.last() == '/');
            end -= 1;
        } else {
            assert(q.last() != '/');
            let mut i: usize = end - 1;
            while i > 0
                invariant
                    p == path@,
                    n == p.len(),
                    i < end,
                    end <= n,
                    forall|k: int| i <= k < end ==> p[k] != '/',
                ensures
                    i < end,
                    i == 0 || p[i - 1] == '/',
                    forall|k: int| i <= k < end ==> p[k] != '/',
                decreases i,
            {
                if path.get_char(i - 1) == '/' {
                    break;
                }
                i -= 1;
            }
            proof {
                assert forall|k: int| i - 1 < k < q.len() implies !slash()(#[trigger] q[k]) by {
                    assert(q[k] == p[k]);
                }
                if i > 0 {
                    assert(q[i - 1] == p[i - 1]);
                }
                lemma_last_index_is(q, slash(), i - 1);
            }
            let ghost seg = q.subrange(i as int, end as int);
            assert(seg =~= p.subrange(i as int, end as int));
            let first = path.get_char(i);
            assert(seg[0] == first);
            if end - i == 1 && first == '.' {
                assert(seg =~= seq!['.']);
                assert(q.subrange(0, i as int) =~= p.subrange(0, i as int));
                end = i;
            } else {
                if end - i == 2 {
                    let second = path.get_char(i + 1);
                    assert(seg[1] == second);
                    if first == '.' && second == '.' {
                        assert(seg =~= seq!['.', '.']);
                        return String::new();
                    }
                    assert(seg != seq!['.', '.']) by {
                        if seg == seq!['.', '.'] {
                            assert(seg[0] == '.' && seg[1] == '.');
                        }
                    }
                } else {
                    assert(seg.len() != 2);
                }
                assert(seg != seq!['.']) by {
                    if seg == seq!['.'] {
                        assert(seg.len() == 1 && seg[0] == '.');
                    }
                }
                return String::from_str(path.substring_char(i, end));
            }
        }
    }
}

/// A file's own name is what is shown for it: for every name `n` that holds
/// no separator and is neither `.` nor `..`, dot-files included, the path
/// `d/n` and the bare `n` are both shown as `n`, whatever directory `d` is.
pub proof fn law_display_name_is_last_segment(d: Seq<char>, n: Seq<char>)
    requires
        n.len() > 0,
        forall|k: int| 0 <= k < n.len() ==> #[trigger] n[k] != '/',
        n != seq!['.'],
        n != seq!['.', '.'],
    ensures
        display_name(d.push('/') + n) == n,
        display_name(n) == n,
{
    let p = d.push('/') + n;
    let at = d.len() as int;
    assert(p[at] == '/');
    assert(p.last() == n[n.len() - 1]);
    assert forall|j: int| at < j < p.len() implies !slash()(#[trigger] p[j]) by {
        assert(p[j] == n[j - at - 1]);
    }
    lemma_last_index_is(p, slash(), at);
    assert(p.subrange(at + 1, p.len() as int) =~= n);
    assert(n.last() == n[n.len() - 1]);
    assert forall|j: int| -1 < j < n.len() implies !slash()(#[trigger] n[j]) by {}
    lemma_last_index_is(n, slash(), -1);
    assert(n.subrange(0, n.len() as int) =~= n);
}

/// Trailing separators and trailing `.` components do not change the name;
/// a path ending in `..` shows no name.
pub proof fn law_display_name_trailing(p: Seq<char>)
    ensures
        display_name(p.push('/')) == display_name(p),
        display_name(p.push('/').push('.')) == display_name(p),
        display_name(p.push('/').push('.').push('.')) == Seq::<char>::empty(),
{
    let q1 = p.push('/');
    assert(q1.drop_last() =~= p);
    let at = p.len() as int;
    let q2 = q1.push('.');
    assert(q2[at] == '/');
    lemma_last_index_is(q2, slash(), at);
    assert(q2.subrange(at + 1, q2.len() as int) =~= seq!['.']);
    assert(q2.subrange(0, at + 1) =~= q1);
    let q3 = q2.push('.');
    assert(q3[at] == '/');
    assert forall|j: int| at < j < q3.len() implies !slash()(#[trigger] q3[j]) by {}
    lemma_last_index_is(q3, slash(), at);
    assert(q3.subrange(at + 1, q3.len() as int) =~= seq!['.', '.']);
}

} // verus!
