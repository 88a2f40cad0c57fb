//! What the library promises.
//!
//! Each law here speaks of the functions of the library as a caller sees them:
//! it takes the arguments of one or more calls and what they returned, and
//! says how they are related. The statements use sequences, sets and plain
//! values, so that they can be read without the definitions that the contracts
//! are written with.

use vstd::prelude::*;

pub mod aggregation;
pub mod calls;
pub mod connection;
pub mod generation;
pub mod health;
pub mod membership;
pub mod pool;
pub mod serving;
pub mod text;
pub mod values;

verus! {

/// Filtering a sequence with one more item.
pub proof fn lemma_filter_push<A>(s: Seq<A>, x: A, keep: spec_fn(A) -> bool)
    ensures
        s.push(x).filter(keep) == if keep(x) {
            s.filter(keep).push(x)
        } else {
            s.filter(keep)
        },
{
    reveal(Seq::filter);
    assert(s.push(x).drop_last() =~= s);
}

/// Filters that agree on the items of a sequence keep the same ones.
pub proof fn lemma_filter_agrees<A>(s: Seq<A>, p: spec_fn(A) -> bool, q: spec_fn(A) -> bool)
    requires
        forall|i: int| 0 <= i < s.len() ==> p(#[trigger] s[i]) == q(s[i]),
    ensures
        s.filter(p) == s.filter(q),
    decreases s.len(),
{
    reveal(Seq::filter);
    if s.len() > 0 {
        let before = s.drop_last();
        assert forall|i: int| 0 <= i < before.len() implies p(#[trigger] before[i]) == q(
            before[i],
        ) by {
            assert(before[i] == s[i]);
        }
        lemma_filter_agrees(before, p, q);
        assert(p(s[s.len() - 1]) == q(s[s.len() - 1]));
    }
}

} // verus!
