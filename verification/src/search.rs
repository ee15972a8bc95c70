//! Searching a sequence from its end, the way the registries look entries up.
use vstd::prelude::*;

verus! {

/// Index of the last element of `s` that satisfies `p`, or -1.
pub open spec fn last_index<A>(s: Seq<A>, p: spec_fn(A) -> bool) -> int
    decreases s.len(),
{
    if s.len() == 0 {
        -1
    } else if p(s.last()) {
        s.len() - 1
    } else {
        last_index(s.drop_last(), p)
    }
}

pub proof fn lemma_last_index<A>(s: Seq<A>, p: spec_fn(A) -> bool)
    ensures
        -1 <= last_index(s, p) < s.len(),
        last_index(s, p) >= 0 ==> p(s[last_index(s, p)]),
        forall|j: int| last_index(s, p) < j < s.len() ==> !p(#[trigger] s[j]),
    decreases s.len(),
{
    if s.len() > 0 && !p(s.last()) {
        let d = s.drop_last();
        lemma_last_index(d, p);
        if last_index(d, p) >= 0 {
            assert(s[last_index(d, p)] == d[last_index(d, p)]);
        }
        assert forall|j: int| last_index(s, p) < j < s.len() implies !p(#[trigger] s[j]) by {
            if j < d.len() {
                assert(s[j] == d[j]);
            }
        }
    }
}

pub proof fn lemma_last_index_is<A>(s: Seq<A>, p: spec_fn(A) -> bool, i: int)
    requires
        -1 <= i < s.len(),
        i >= 0 ==> p(s[i]),
        forall|j: int| i < j < s.len() ==> !p(#[trigger] s[j]),
    ensures
        last_index(s, p) == i,
    decreases s.len(),
{
    if s.len() > 0 && i < s.len() - 1 {
        let d = s.drop_last();
        assert(!p(s[s.len() - 1]));
        assert forall|j: int| i < j < d.len() implies !p(#[trigger] d[j]) by {
            assert(d[j] == s[j]);
        }
        if i >= 0 {
            assert(d[i] == s[i]);
        }
        lemma_last_index_is(d, p, i);
    }
}

/// One step of a search from the back over prefixes of `s`.
pub proof fn lemma_last_index_step<A>(s: Seq<A>, p: spec_fn(A) -> bool, i: int)
    requires
        0 < i <= s.len(),
    ensures
        last_index(s.take(i), p) == (if p(s[i - 1]) {
            i - 1
        } else {
            last_index(s.take(i - 1), p)
        }),
{
    assert(s.take(i).drop_last() =~= s.take(i - 1));
    assert(s.take(i).last() == s[i - 1]);
}

} // verus!
