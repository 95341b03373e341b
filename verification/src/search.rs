//! The first place in a sequence at which something holds.

use vstd::prelude::*;

verus! {

/// Index of the first `true`, or `flags.len()` when there is none.
pub open spec fn first_true(flags: Seq<bool>) -> int
    decreases flags.len(),
{
    if flags.len() == 0 {
        0
    } else if flags[0] {
        0
    } else {
        1 + first_true(flags.drop_first())
    }
}

/// `first_true` is the least index that holds `true`.
pub proof fn lemma_first_true(flags: Seq<bool>)
    ensures
        0 <= first_true(flags) <= flags.len(),
        first_true(flags) < flags.len() ==> flags[first_true(flags)],
        forall|j: int| 0 <= j < first_true(flags) ==> !#[trigger] flags[j],
    decreases flags.len(),
{
    if flags.len() > 0 && !flags[0] {
        let rest = flags.drop_first();
        lemma_first_true(rest);
        assert forall|j: int| 0 <= j < first_true(flags) implies !#[trigger] flags[j] by {
            if j > 0 {
                assert(rest[j - 1] == flags[j]);
            }
        }
    }
}

/// An index that holds `true`, with none before it, is the `first_true`.
pub proof fn lemma_first_true_is(flags: Seq<bool>, i: int)
    requires
        0 <= i <= flags.len(),
        i < flags.len() ==> flags[i],
        forall|j: int| 0 <= j < i ==> !#[trigger] flags[j],
    ensures
        first_true(flags) == i,
{
    lemma_first_true(flags);
    let p = first_true(flags);
    if p < i {
        assert(!flags[p]);
    }
}

} // verus!
