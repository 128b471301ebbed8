//! Small sequence helpers shared by the store, the writer and the
//! reconciliation engine.

use vstd::prelude::*;

verus! {

/// Index of the first element satisfying `p`.
pub open spec fn idx_of<A>(s: Seq<A>, p: spec_fn(A) -> bool) -> Option<int>
    decreases s.len(),
{
    if s.len() == 0 {
        None
    } else if p(s[0]) {
        Some(0)
    } else {
        match idx_of(s.drop_first(), p) {
            Some(i) => Some(i + 1),
            None => None,
        }
    }
}

pub proof fn lemma_idx_of<A>(s: Seq<A>, p: spec_fn(A) -> bool)
    ensures
        match idx_of(s, p) {
            Some(i) => 0 <= i < s.len() && p(s[i]) && forall|j: int| 0 <= j < i ==> !p(s[j]),
            None => forall|j: int| 0 <= j < s.len() ==> !p(s[j]),
        },
    decreases s.len(),
{
    if s.len() > 0 && !p(s[0]) {
        lemma_idx_of(s.drop_first(), p);
        match idx_of(s.drop_first(), p) {
            Some(i) => {
                assert(s[i + 1] == s.drop_first()[i]);
                assert forall|j: int| 0 <= j < i + 1 implies !p(s[j]) by {
                    if j > 0 {
                        assert(s[j] == s.drop_first()[j - 1]);
                    }
                }
            },
            None => {
                assert forall|j: int| 0 <= j < s.len() implies !p(s[j]) by {
                    if j > 0 {
                        assert(s[j] == s.drop_first()[j - 1]);
                    }
                }
            },
        }
    }
}

/// The first match is at `ix` when `ix` matches and nothing before it does.
pub proof fn lemma_idx_of_is<A>(s: Seq<A>, p: spec_fn(A) -> bool, ix: int)
    requires
        0 <= ix < s.len(),
        p(s[ix]),
        forall|j: int| 0 <= j < ix ==> !p(s[j]),
    ensures
        idx_of(s, p) == Some(ix),
    decreases s.len(),
{
    if ix > 0 {
        assert(s.drop_first()[ix - 1] == s[ix]);
        assert(forall|j: int| 0 <= j < ix - 1 ==> s.drop_first()[j] == s[j + 1]);
        lemma_idx_of_is(s.drop_first(), p, ix - 1);
    }
}

/// Filtering one more element keeps it exactly when the predicate holds.
pub proof fn lemma_filter_push<A>(s: Seq<A>, p: spec_fn(A) -> bool, x: A)
    ensures
        (s.push(x)).filter(p) == if p(x) {
            s.filter(p).push(x)
        } else {
            s.filter(p)
        },
{
    reveal(Seq::filter);
    assert(s.push(x).drop_last() =~= s);
    assert(s.push(x).last() == x);
}

/// An element of the filtered sequence, found at its source index.
pub proof fn lemma_filter_sub<A>(s: Seq<A>, p: spec_fn(A) -> bool)
    ensures
        forall|i: int|
            0 <= i < s.filter(p).len() ==> exists|j: int|
                0 <= j < s.len() && s[j] == #[trigger] s.filter(p)[i],
    decreases s.len(),
{
    reveal(Seq::filter);
    if s.len() > 0 {
        lemma_filter_sub(s.drop_last(), p);
        assert forall|i: int| 0 <= i < s.filter(p).len() implies exists|j: int|
            0 <= j < s.len() && s[j] == #[trigger] s.filter(p)[i] by {
            if i < s.drop_last().filter(p).len() {
                let j = choose|j: int|
                    0 <= j < s.drop_last().len() && s.drop_last()[j] == s.drop_last().filter(p)[i];
                assert(s[j] == s.filter(p)[i]);
            } else {
                assert(s[s.len() - 1] == s.filter(p)[i]);
            }
        }
    }
}

} // verus!
